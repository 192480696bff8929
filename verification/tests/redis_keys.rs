use std::collections::HashSet;

use realtime::{
    AppNamespaceError, ApplicationId, ChannelKey, ConnectionId, NodeId, NodeInstance, RedisKeys,
    Timestamp,
};

fn instance(boot: u128, started_at: u64) -> NodeInstance {
    NodeInstance::new(NodeId::new("node-1"), boot, Timestamp { millis: started_at })
}

fn connection(value: &str) -> ConnectionId {
    ConnectionId::new(value)
}

fn all_keys(keys: &RedisKeys, channel: &ChannelKey, conn: &ConnectionId) -> Vec<String> {
    let app = &channel.application_id;
    let node = instance(1, 1000);
    vec![
        keys.channel_state(channel),
        keys.channel_attachments(channel),
        keys.channel_members(channel),
        keys.channel_shards(channel),
        keys.connection_state(app, conn),
        keys.connection_channels(app, conn),
        keys.connection_members(app, conn),
        keys.connection_operations(app, conn),
        keys.connection_operation_order(app, conn),
        keys.generations(),
        keys.generation_deadlines(),
        keys.generation_connections(&node),
        keys.generation_shards(&node),
        keys.outbox(),
        keys.dirty_channels(),
        keys.occupancy_publications(),
        keys.node_lease(&node.node_id),
        keys.publisher_lease(),
        keys.cleanup_lease(&node),
    ]
}

#[test]
fn persisted_key_layout_is_stable() {
    let keys = RedisKeys::new("webapp", "test").unwrap();
    let app = ApplicationId::new("app");
    let channel = ChannelKey::new(app.clone(), "room");
    let conn = connection("conn");

    assert_eq!(keys.namespace(), "webapp.test.presence.v1");
    assert_eq!(
        keys.channel_state(&channel),
        "webapp.test.presence.v1.app.YXBw.channel.cm9vbQ.state"
    );
    assert_eq!(
        keys.connection_operations(&app, &conn),
        "webapp.test.presence.v1.app.YXBw.connection.Y29ubg.operations"
    );
    assert_eq!(
        keys.generation_connections(&instance(1, 1000)),
        "webapp.test.presence.v1.generation.bm9kZS0x.00000000-0000-0000-0000-000000000001.connections"
    );
    assert_eq!(
        keys.node_lease(&instance(1, 1000).node_id),
        "webapp.test.presence.v1.lease.node.bm9kZS0x"
    );
}

#[test]
fn key_families_and_lease_counters_do_not_overlap() {
    let keys = RedisKeys::new("webapp", "test").unwrap();
    let channel = ChannelKey::new(ApplicationId::new("lease.publisher:fence"), "x:fence");
    let conn = connection("x:fence");
    let mut actual = all_keys(&keys, &channel, &conn);
    let node = instance(1, 1000);
    for lease in [
        keys.node_lease(&node.node_id),
        keys.publisher_lease(),
        keys.cleanup_lease(&node),
    ] {
        actual.push(format!("{lease}:fence"));
    }

    assert_eq!(actual.iter().collect::<HashSet<_>>().len(), actual.len());
    assert!(all_keys(&keys, &channel, &conn).iter().all(|key| !key.contains(':')));
}

#[test]
fn applications_and_environments_have_disjoint_namespaces() {
    let channel = ChannelKey::new(ApplicationId::new("app"), "room");
    let conn = connection("conn");
    let mut seen = HashSet::new();
    for (app, env) in [("webapp", "test"), ("other", "test"), ("webapp", "production")] {
        for key in all_keys(&RedisKeys::new(app, env).unwrap(), &channel, &conn) {
            assert!(seen.insert(key));
        }
    }

    for (app, env) in [("a.b", "c"), ("a", "b.c"), ("", "test"), ("app", "")] {
        assert!(RedisKeys::new(app, env).is_err());
    }
}

#[test]
fn boot_changes_generation_keys_but_not_the_node_lease() {
    let keys = RedisKeys::new("webapp", "test").unwrap();
    let first = instance(1, 1000);
    let metadata_changed = instance(1, 2000);
    let restarted = instance(2, 2000);

    for key in [
        RedisKeys::generation_connections,
        RedisKeys::generation_shards,
        RedisKeys::cleanup_lease,
    ] {
        assert_eq!(key(&keys, &first), key(&keys, &metadata_changed));
        assert_ne!(key(&keys, &first), key(&keys, &restarted));
    }
    assert_eq!(keys.node_lease(&first.node_id), keys.node_lease(&restarted.node_id));

    let mut other_node = first.clone();
    other_node.node_id = NodeId::new("node-2");
    assert_ne!(keys.node_lease(&first.node_id), keys.node_lease(&other_node.node_id));
    assert_ne!(keys.generation_connections(&first), keys.generation_connections(&other_node));
}

#[test]
fn special_names_are_distinct_and_cannot_inject_structure() {
    let keys = RedisKeys::new("webapp", "test").unwrap();
    let names = ["", ".", ":fence", "a.b", "a:b", "{room}", "*?[]", "\0", "чат", "é", "e\u{301}"];
    let mut seen = HashSet::new();
    for app in names {
        for channel in names {
            let key = keys.channel_state(&ChannelKey::new(ApplicationId::new(app), channel));
            assert!(key.bytes().all(|byte| byte.is_ascii_alphanumeric() || b"._-".contains(&byte)));
            assert!(seen.insert(key));
        }
    }
}

#[test]
fn operation_serials_have_twenty_digits_and_sort_as_numbers() {
    assert_eq!(realtime::operation_serial(0), "00000000000000000000");
    assert_eq!(realtime::operation_serial(42), "00000000000000000042");
    assert_eq!(realtime::operation_serial(u64::MAX), "18446744073709551615");
    assert!(realtime::operation_serial(9) < realtime::operation_serial(10));
}

#[test]
fn generation_names_the_node_and_boot() {
    let run = instance(0x1234, 5);
    assert_eq!(
        realtime::generation(&run),
        "bm9kZS0x.00000000-0000-0000-0000-000000001234"
    );
}

#[test]
fn namespace_refusals_name_the_bad_part() {
    use_namespace_errors();
}

fn use_namespace_errors() {
    assert_eq!(RedisKeys::new("a.b", "c").unwrap_err(), AppNamespaceError::InvalidApp);
    assert_eq!(RedisKeys::new("", "").unwrap_err(), AppNamespaceError::InvalidApp);
    assert_eq!(RedisKeys::new("app", "b.c").unwrap_err(), AppNamespaceError::InvalidEnvironment);
    assert_eq!(RedisKeys::new("app", "").unwrap_err(), AppNamespaceError::InvalidEnvironment);
    assert_eq!(RedisKeys::new("my-app_1", "prod").unwrap().namespace(), "my-app_1.prod.presence.v1");
}

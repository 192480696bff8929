use realtime::redis_store::{
    claim_call, disconnect_channels, presence_item_frames, reap_outcome_tolerated, DisconnectChannel,
};
use realtime::{
    ApplicationId, AttachCommand, AttachmentTracking, ChannelKey, ChannelModes, ChannelStateStoreError, ClientIdPolicy,
    ConnectionActor, ConnectionId, DetachCommand, DisconnectConnectionCommand, HeldLease, NodeId,
    NodeInstance, NodeLease, NodeLeaseError, PresenceActor, PresenceBatchCommand,
    PresenceBatchItem, PresenceLedgerPolicy, PresenceMutationAction, RedisChannelStore, RedisKeys,
    StoreErrorKind, Timestamp,
};

const NS: &str = "webapp.test.presence.v1";

fn keys() -> RedisKeys {
    RedisKeys::new("webapp", "test").unwrap()
}

fn node(boot: u128) -> NodeInstance {
    NodeInstance::new(NodeId::new("node-1"), boot, Timestamp { millis: 1_000 })
}

fn run(boot: u128) -> String {
    format!("bm9kZS0x.00000000-0000-0000-0000-{boot:012x}")
}

fn lease(boot: u128) -> NodeLease {
    NodeLease::new(
        node(boot),
        HeldLease {
            key: format!("{NS}.lease.node.bm9kZS0x"),
            owner: run(boot),
            value: "token-1".to_owned(),
        },
    )
}

fn store() -> RedisChannelStore {
    RedisChannelStore::new(keys(), lease(1), PresenceLedgerPolicy { capacity: 0, retention_millis: 120_000 })
        .unwrap()
}

fn actor(boot: u128) -> ConnectionActor {
    ConnectionActor {
        application_id: ApplicationId::new("app-1"),
        connection_id: ConnectionId::new("conn-1"),
        node_instance: node(boot),
    }
}

fn channel() -> ChannelKey {
    ChannelKey::new(ApplicationId::new("app-1"), "room")
}

fn attach_command() -> AttachCommand {
    AttachCommand {
        channel: channel(),
        actor: actor(1),
        accounting: AttachmentTracking::Individual,
        effective_modes: ChannelModes { publish: true, subscribe: false, presence: false, presence_subscribe: false },
        request_time: Timestamp { millis: 2_000 },
        event_id: 0xab,
    }
}

fn channel_keys() -> Vec<String> {
    vec![
        format!("{NS}.lease.node.bm9kZS0x"),
        format!("{NS}.generation-deadlines"),
        format!("{NS}.app.YXBwLTE.channel.cm9vbQ.state"),
        format!("{NS}.app.YXBwLTE.channel.cm9vbQ.attachments"),
        format!("{NS}.app.YXBwLTE.channel.cm9vbQ.members"),
        format!("{NS}.app.YXBwLTE.connection.Y29ubi0x.state"),
        format!("{NS}.app.YXBwLTE.connection.Y29ubi0x.channels"),
        format!("{NS}.app.YXBwLTE.connection.Y29ubi0x.members"),
        format!("{NS}.generation.{}.connections", run(1)),
        format!("{NS}.outbox"),
    ]
}

#[test]
fn store_keeps_a_journal_of_at_least_one_operation() {
    let store = store();
    assert!(store.is_ready());
    assert_eq!(store.ledger_policy().capacity, 1);
    assert_eq!(store.ledger_policy().retention_millis, 120_000);
    assert_eq!(store.node_instance().boot_generation, 1);
}

#[test]
fn store_refuses_a_lease_of_another_namespace() {
    let other = RedisKeys::new("webapp", "production").unwrap();
    let refused = RedisChannelStore::new(other, lease(1), PresenceLedgerPolicy::default_policy());
    assert!(matches!(refused, Err(NodeLeaseError::NamespaceMismatch)));
}

#[test]
fn attach_call_lays_out_keys_and_arguments() {
    let call = store().attach_call(&attach_command(), "{\"channel\":1}", "{\"attachment\":1}").unwrap();
    assert_eq!(call.keys, channel_keys());
    assert_eq!(
        call.args,
        vec![
            "token-1".to_owned(),
            run(1),
            "YXBwLTE".to_owned(),
            "cm9vbQ".to_owned(),
            "Y29ubi0x".to_owned(),
            "{\"channel\":1}".to_owned(),
            "{\"attachment\":1}".to_owned(),
            "00000000-0000-0000-0000-0000000000ab".to_owned(),
        ]
    );
}

#[test]
fn attach_checks_accounting_modes_application_and_run() {
    let store = store();
    let mut aggregated = attach_command();
    aggregated.accounting = AttachmentTracking::Aggregated;
    let error = store.attach_call(&aggregated, "", "").unwrap_err();
    assert_eq!(error.message(), "individual attachment accounting is required");

    let mut no_mode = attach_command();
    no_mode.effective_modes.publish = false;
    let error = store.attach_call(&no_mode, "", "").unwrap_err();
    assert_eq!(error.message(), "attachment requires at least one effective mode");

    let mut foreign = attach_command();
    foreign.channel = ChannelKey::new(ApplicationId::new("app-2"), "room");
    let error = store.attach_call(&foreign, "", "").unwrap_err();
    assert_eq!(error.message(), "channel and connection belong to different applications");

    let mut other_run = attach_command();
    other_run.actor = actor(2);
    let error = store.attach_call(&other_run, "", "").unwrap_err();
    assert_eq!(error.kind(), StoreErrorKind::InvalidRequest);
    assert_eq!(error.message(), "connection belongs to another node generation");
}

#[test]
fn a_stopped_store_refuses_requests() {
    let mut store = store();
    store.stop();
    assert!(!store.is_ready());
    let error = store.attach_call(&attach_command(), "", "").unwrap_err();
    assert_eq!(error.kind(), StoreErrorKind::Conflict);
    assert_eq!(error.message(), "Redis Presence runtime is stopped");
    assert!(store.validate_generation(&actor(1)).is_err());
}

#[test]
fn presence_call_adds_the_operation_keys_and_capacity() {
    let command = PresenceBatchCommand {
        channel: channel(),
        actor: PresenceActor { connection_actor: actor(1), client_id_policy: ClientIdPolicy::Fixed("alice".to_owned()) },
        msg_serial: 12,
        request_fingerprint: "fp".to_owned(),
        items: vec![
            PresenceBatchItem { action: PresenceMutationAction::Enter, client_id: Some("alice".to_owned()), data: None },
            PresenceBatchItem { action: PresenceMutationAction::Leave, client_id: Some("bob".to_owned()), data: Some(serde_json::Value::Null) },
            PresenceBatchItem { action: PresenceMutationAction::Update, client_id: None, data: None },
        ],
        request_time: Timestamp { millis: 2_000 },
        event_id: 1,
    };
    let call = store().presence_call(&command, "ch", "node", "items").unwrap();
    let mut expected = channel_keys();
    expected.push(format!("{NS}.app.YXBwLTE.connection.Y29ubi0x.operations"));
    expected.push(format!("{NS}.app.YXBwLTE.connection.Y29ubi0x.operation-order"));
    assert_eq!(call.keys, expected);
    assert_eq!(call.args.len(), 13);
    assert_eq!(call.args[6], "conn-1");
    assert_eq!(call.args[9], "00000000000000000012");
    assert_eq!(call.args[10], "fp");
    assert_eq!(call.args[12], "1");

    let frames = presence_item_frames(&command);
    assert_eq!(frames.len(), 3);
    assert_eq!(frames[0].client_segment.as_deref(), Some("YWxpY2U"));
    assert!(frames[0].allowed);
    assert!(!frames[0].has_data);
    assert_eq!(frames[0].last_message_id, "conn-1:12:0");
    assert!(!frames[1].allowed);
    assert!(frames[1].has_data);
    assert_eq!(frames[1].action.as_str(), "leave");
    assert!(frames[2].client_id.is_none() && frames[2].client_segment.is_none() && !frames[2].allowed);
    assert_eq!(frames[2].last_message_id, "conn-1:12:2");
}

#[test]
fn detach_call_names_the_connection_and_event() {
    let command = DetachCommand { channel: channel(), actor: actor(1), request_time: Timestamp { millis: 3 }, event_id: 16 };
    let call = store().detach_call(&command, "ch", "node").unwrap();
    assert_eq!(call.keys, channel_keys());
    assert_eq!(call.args[5..].to_vec(), vec!["ch", "conn-1", "node", "00000000-0000-0000-0000-000000000010"]);
}

#[test]
fn disconnect_call_grows_with_the_listed_channels() {
    let store = store();
    let command = DisconnectConnectionCommand { actor: actor(1), request_time: Timestamp { millis: 3 }, event_id: 5 };
    let first = store.close_connection_call(&command, None, "node", &Vec::new(), "[]");
    assert_eq!(first.keys.len(), 9);
    assert_eq!(first.keys[7], format!("{NS}.app.YXBwLTE.connection.Y29ubi0x.operation-order"));
    assert_eq!(first.args, vec!["token-1".to_owned(), run(1), "YXBwLTE".into(), "Y29ubi0x".into(), "conn-1".into(), "node".into(), "120000".into(), "[]".into()]);

    let channels: Vec<DisconnectChannel> = disconnect_channels(&command, &vec!["room-a".to_owned(), "room".to_owned()]);
    assert_eq!(channels[0].segment, "cm9vbS1h");
    assert_eq!(channels[1].channel.channel, "room");
    assert_eq!(channels[0].event_id, command.channel_event_id(&channels[0].channel));
    let second = store.close_connection_call(&command, None, "node", &channels, "[..]");
    assert_eq!(second.keys.len(), 15);
    assert_eq!(second.keys[12], format!("{NS}.app.YXBwLTE.channel.cm9vbQ.state"));
    assert_eq!(second.keys[14], format!("{NS}.app.YXBwLTE.channel.cm9vbQ.members"));
    assert_eq!(second.args[7], "[..]");
}

#[test]
fn cleanup_tokens_must_lease_the_target_run_for_this_reaper() {
    let store = store();
    let target = actor(9);
    let command = DisconnectConnectionCommand { actor: target, request_time: Timestamp { millis: 3 }, event_id: 5 };
    let token = HeldLease { key: format!("{NS}.lease.cleanup.{}", run(9)), owner: run(1), value: "cleanup-1".to_owned() };
    assert!(store.validate_cleanup_token(&command, &token).is_ok());
    let call = store.close_connection_call(&command, Some(&token), "node", &Vec::new(), "[]");
    assert_eq!(call.keys[9], token.key);
    assert_eq!(call.keys[10], format!("{NS}.lease.node.bm9kZS0x"));
    assert_eq!(call.args[8..].to_vec(), vec![run(1), "cleanup-1".to_owned()]);

    let foreign = HeldLease { owner: run(2), ..token };
    let error = store.validate_cleanup_token(&command, &foreign).unwrap_err();
    assert_eq!(error.message(), "cleanup token must target the requested generation and belong to this reaper");
}

#[test]
fn reap_outbox_and_listing_calls() {
    let store = store();
    let target = node(9);
    let token = HeldLease { key: format!("{NS}.lease.cleanup.{}", run(9)), owner: run(1), value: "cleanup-1".to_owned() };
    let call = store.reap_generation_call(&target, &token, 32).unwrap();
    assert_eq!(call.keys[5], format!("{NS}.generation.{}.shards", run(9)));
    assert_eq!(call.keys[6], format!("{NS}.generations"));
    assert_eq!(call.args, vec!["token-1".to_owned(), run(1), "cleanup-1".to_owned(), run(9), "32".to_owned()]);
    let error = store.reap_generation_call(&target, &token, 0).unwrap_err();
    assert_eq!(error.message(), "invalid generation cleanup token or batch size");

    let publisher = HeldLease { key: format!("{NS}.lease.publisher"), owner: run(1), value: "pub-1".to_owned() };
    let call = store.outbox_call(&publisher, "read", "32").unwrap();
    assert_eq!(call.keys, vec![format!("{NS}.lease.node.bm9kZS0x"), format!("{NS}.generation-deadlines"), format!("{NS}.lease.publisher"), format!("{NS}.outbox")]);
    assert_eq!(call.args, vec!["token-1".to_owned(), run(1), "pub-1".into(), "read".into(), "32".into()]);
    let stale = HeldLease { owner: run(2), ..publisher };
    assert_eq!(store.outbox_call(&stale, "ack", "1-0").unwrap_err().message(), "invalid outbox publisher token");

    let listing = store.expired_generations_call(32);
    assert_eq!(listing.keys, vec![format!("{NS}.generation-deadlines"), format!("{NS}.generations")]);
    assert_eq!(listing.args, vec!["32"]);
    let snapshot = store.snapshot_call(&channel());
    assert_eq!(snapshot.keys[3], format!("{NS}.app.YXBwLTE.channel.cm9vbQ.shards"));
    assert!(snapshot.args.is_empty());
}

#[test]
fn node_lease_calls_claim_and_renew() {
    let keys = keys();
    let claim = claim_call(&keys, &node(1), "fence", "owner", 15_000, "{}");
    assert_eq!(claim.keys, vec![format!("{NS}.lease.node.bm9kZS0x"), "fence".to_owned(), format!("{NS}.generations"), format!("{NS}.generation-deadlines")]);
    assert_eq!(claim.args, vec!["owner".to_owned(), "15000".into(), run(1), "{}".into()]);
    let renew = lease(1).renew_call(&keys, 15_000).unwrap();
    assert_eq!(renew.args, vec!["token-1".to_owned(), "15000".into(), run(1)]);
    let other = RedisKeys::new("other", "test").unwrap();
    assert!(matches!(lease(1).renew_call(&other, 15_000), Err(NodeLeaseError::NamespaceMismatch)));
}

#[test]
fn channel_event_ids_differ_per_channel_and_per_command() {
    let first = DisconnectConnectionCommand { actor: actor(1), request_time: Timestamp { millis: 1 }, event_id: 0x1111 };
    let second = DisconnectConnectionCommand { actor: actor(1), request_time: Timestamp { millis: 1 }, event_id: 0x2222 };
    let room = |name: &str| ChannelKey::new(ApplicationId::new("application-1"), name);
    assert_eq!(first.channel_event_id(&room("room-1")), first.channel_event_id(&room("room-1")));
    assert_ne!(first.channel_event_id(&room("room-1")), first.channel_event_id(&room("room-2")));
    assert_ne!(first.channel_event_id(&room("room-1")), second.channel_event_id(&room("room-1")));
}

#[test]
fn run_cleanup_continues_after_conflicts_only() {
    assert!(reap_outcome_tolerated(&Ok(true)));
    assert!(reap_outcome_tolerated(&Err(ChannelStateStoreError::Conflict { message: "held".to_owned() })));
    assert!(!reap_outcome_tolerated(&Err(ChannelStateStoreError::Internal { message: "bad".to_owned() })));
}

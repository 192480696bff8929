use realtime::outbox::{
    assemble_outbox_event, decode_member_data, decode_outbox_frame, MemberPayload, OutboxFormat,
};
use realtime::replies::{
    check_generation_entries, decode_attach_reply, decode_connection_reference,
    decode_disconnect_frame, decode_expired_generation_entries, decode_outbox_entry,
    decode_outbox_reply, decode_presence_frame, decode_reap_reply, decode_transition_frame,
    DisconnectFrame, OutcomeFrame, TransitionFrame,
};
use realtime::reply::{decode_metrics, decode_rejection, decode_u64, parse_u64, ScriptValue};
use realtime::snapshot::{assemble_snapshot, decode_snapshot_frame};
use realtime::{
    ApplicationId, ChannelKey, ConnectionId, NodeId, NodeInstance, PresenceChangeAction,
    PresenceRejection, StoreErrorKind, Timestamp,
};

fn text(value: &str) -> ScriptValue {
    ScriptValue::Bytes(value.as_bytes().to_vec())
}

fn list(values: Vec<ScriptValue>) -> ScriptValue {
    ScriptValue::Array(values)
}

fn node() -> NodeInstance {
    NodeInstance::new(NodeId::new("node-1"), 7, Timestamp { millis: 1_000 })
}

fn payload(connection: &str, client: &str, data_json: Option<&str>) -> MemberPayload {
    MemberPayload {
        connection_id: ConnectionId::new(connection),
        client_id: client.to_owned(),
        node_instance: node(),
        data_json: data_json.map(|d| d.to_owned()),
        last_message_id: format!("{connection}:1:0"),
    }
}

fn metrics(values: [&str; 6]) -> ScriptValue {
    let names = [
        "connections",
        "publishers",
        "subscribers",
        "presence_connections",
        "presence_subscribers",
        "presence_members",
    ];
    let mut pairs = Vec::new();
    for (name, value) in names.iter().zip(values.iter()) {
        pairs.push(text(name));
        pairs.push(text(value));
    }
    list(pairs)
}

#[test]
fn decimal_counters_parse_exactly() {
    assert_eq!(parse_u64("0"), Some(0));
    assert_eq!(parse_u64("18446744073709551615"), Some(u64::MAX));
    assert_eq!(parse_u64("18446744073709551616"), None);
    assert_eq!(parse_u64(""), None);
    assert_eq!(parse_u64("+1"), Some(1));
    assert_eq!(parse_u64("+"), None);
    assert_eq!(parse_u64("-1"), None);
    assert_eq!(parse_u64("1 "), None);
    assert_eq!(decode_u64(&text("42"), "field").unwrap(), 42);
    let error = decode_u64(&text("x"), "occupancy_version").unwrap_err();
    assert_eq!(error.kind(), StoreErrorKind::Internal);
    assert_eq!(error.message(), "invalid u64 in Lua reply field occupancy_version");
    assert!(decode_u64(&ScriptValue::Integer(3), "field").is_err());
}

#[test]
fn rejection_codes_map_to_error_kinds() {
    let error = decode_rejection("invalid_request", "bad".to_owned());
    assert_eq!((error.kind(), error.message()), (StoreErrorKind::InvalidRequest, "bad"));
    for code in ["lease_lost", "connection_closed", "generation_mismatch", "generation_active"] {
        let error = decode_rejection(code, "lost".to_owned());
        assert_eq!((error.kind(), error.message()), (StoreErrorKind::Conflict, "lost"));
    }
    for code in ["corrupt_state", "numeric_overflow"] {
        let error = decode_rejection(code, "broken".to_owned());
        assert_eq!((error.kind(), error.message()), (StoreErrorKind::Internal, "broken"));
    }
    let error = decode_rejection("other", "msg".to_owned());
    assert_eq!(error.kind(), StoreErrorKind::Internal);
    assert_eq!(error.message(), "unknown Lua rejection code other: msg");
}

#[test]
fn metrics_are_read_in_fixed_order() {
    let read = decode_metrics(&metrics(["1", "2", "3", "4", "5", "6"])).unwrap();
    assert_eq!(
        (read.connections, read.publishers, read.subscribers),
        (1, 2, 3)
    );
    assert_eq!(
        (read.presence_connections, read.presence_subscribers, read.presence_members),
        (4, 5, 6)
    );
    let mut swapped = vec![text("publishers"), text("1"), text("connections"), text("2")];
    for name in ["subscribers", "presence_connections", "presence_subscribers", "presence_members"] {
        swapped.push(text(name));
        swapped.push(text("0"));
    }
    let error = decode_metrics(&list(swapped)).unwrap_err();
    assert_eq!(error.message(), "invalid occupancy metrics in Lua reply");
    assert!(decode_metrics(&list(vec![text("connections"), text("1")])).is_err());
}

#[test]
fn transitions_read_unchanged_and_refusals() {
    match decode_transition_frame(&list(vec![text("unchanged"), text("7")])).unwrap() {
        TransitionFrame::Unchanged { occupancy_version } => assert_eq!(occupancy_version, 7),
        TransitionFrame::Changed(_) => panic!("expected no change"),
    }
    let refused = list(vec![ScriptValue::Integer(0), text("lease_lost"), text("node lease lost")]);
    let error = decode_transition_frame(&refused).unwrap_err();
    assert_eq!((error.kind(), error.message()), (StoreErrorKind::Conflict, "node lease lost"));
    let error = decode_transition_frame(&list(vec![text("other"), text("7")])).unwrap_err();
    assert_eq!(error.message(), "invalid transition in Lua reply");
}

#[test]
fn attach_reply_splits_snapshot_and_transition() {
    let reply = list(vec![ScriptValue::Integer(1), text("s"), text("t")]);
    let (snapshot, transition) = decode_attach_reply(&reply).unwrap();
    assert!(matches!(snapshot, ScriptValue::Bytes(b) if b == b"s"));
    assert!(matches!(transition, ScriptValue::Bytes(b) if b == b"t"));
    let refused = list(vec![ScriptValue::Integer(0), text("invalid_request"), text("no")]);
    let error = decode_attach_reply(&refused).unwrap_err();
    assert_eq!((error.kind(), error.message()), (StoreErrorKind::InvalidRequest, "no"));
    let error = decode_attach_reply(&list(vec![ScriptValue::Integer(2)])).unwrap_err();
    assert_eq!(error.message(), "invalid attach Lua reply");
}

#[test]
fn snapshot_members_come_sorted_by_connection_then_client() {
    let record = |json: &str, revision: &str, at: &str| list(vec![text(json), text(revision), text(at)]);
    let reply = list(vec![
        list(vec![record("b", "3", "30"), record("a2", "2", "20"), record("a1", "1", "10")]),
        text("9"),
        text("4"),
        metrics(["2", "2", "2", "2", "2", "3"]),
    ]);
    let frame = decode_snapshot_frame(&reply).unwrap();
    assert_eq!(frame.members.len(), 3);
    assert_eq!(frame.members[0].payload_json, "b");
    assert_eq!(frame.members[1].presence_revision, 2);
    assert_eq!(frame.members[2].updated_at, 10);
    assert_eq!(frame.presence_revision, 9);
    assert_eq!(frame.occupancy_version, 4);
    assert_eq!(frame.occupancy.presence_members, 3);

    let payloads = vec![
        payload("conn-b", "zed", None),
        payload("conn-a", "bob", Some("{\"x\":1}")),
        payload("conn-a", "alice", None),
    ];
    let snapshot = assemble_snapshot(frame, payloads).unwrap();
    let order: Vec<(&str, &str)> = snapshot
        .members
        .iter()
        .map(|m| (m.connection_id.as_str(), m.client_id.as_str()))
        .collect();
    assert_eq!(order, vec![("conn-a", "alice"), ("conn-a", "bob"), ("conn-b", "zed")]);
    assert_eq!(snapshot.members[0].presence_revision, 1);
    assert_eq!(snapshot.members[1].updated_at, Timestamp { millis: 20 });
    assert!(snapshot.members[1].data.is_some());
    assert!(snapshot.members[0].data.is_none());
    assert_eq!(snapshot.presence_revision, 9);
}

#[test]
fn snapshot_errors_name_the_field() {
    let bad_revision = list(vec![
        list(vec![list(vec![text("p"), text("x"), text("1")])]),
        text("1"),
        text("1"),
        metrics(["0", "0", "0", "0", "0", "0"]),
    ]);
    let error = decode_snapshot_frame(&bad_revision).unwrap_err();
    assert_eq!(error.message(), "invalid u64 in Lua reply field member revision");
    let short = list(vec![list(vec![]), text("1")]);
    assert_eq!(decode_snapshot_frame(&short).unwrap_err().message(), "invalid snapshot in Lua reply");

    let frame = decode_snapshot_frame(&list(vec![
        list(vec![list(vec![text("p"), text("1"), text("1")])]),
        text("1"),
        text("1"),
        metrics(["0", "0", "0", "0", "0", "0"]),
    ]))
    .unwrap();
    let error = assemble_snapshot(frame, vec![payload("c", "d", Some("{not json"))]).unwrap_err();
    assert_eq!(error.kind(), StoreErrorKind::Internal);
    assert!(error.message().starts_with("invalid Presence member data: "));
}

#[test]
fn presence_replies_read_fresh_and_refused_outcomes() {
    let refused = list(vec![text("rejected"), text("clientIdNotAllowed"), text("mallory")]);
    let frame = decode_presence_frame(&refused).unwrap();
    assert!(!frame.replayed);
    match frame.outcome {
        OutcomeFrame::Rejected(PresenceRejection::ClientIdNotAllowed { client_id }) => {
            assert_eq!(client_id, "mallory")
        },
        _ => panic!("expected a refused client identifier"),
    }
    let not_attached = decode_presence_frame(&list(vec![text("rejected"), text("notAttached")])).unwrap();
    assert!(matches!(not_attached.outcome, OutcomeFrame::Rejected(PresenceRejection::NotAttached)));
    let error = decode_presence_frame(&list(vec![text("rejected"), text("surprise")])).unwrap_err();
    assert_eq!(error.message(), "unknown Presence rejection surprise");
    let error = decode_presence_frame(&list(vec![text("rejected"), text("clientIdNotAllowed")])).unwrap_err();
    assert_eq!(error.message(), "missing rejected client ID");
}

#[test]
fn disconnect_replies_list_decoded_channels_in_order() {
    let reply = list(vec![text("channels"), list(vec![text("cm9vbS1i"), text("cm9vbS1h")])]);
    match decode_disconnect_frame(&reply).unwrap() {
        DisconnectFrame::Channels(names) => assert_eq!(names, vec!["room-a", "room-b"]),
        DisconnectFrame::Complete(_) => panic!("expected channels"),
    }
    let done = list(vec![ScriptValue::Integer(1), list(vec![list(vec![text("unchanged"), text("3")])])]);
    match decode_disconnect_frame(&done).unwrap() {
        DisconnectFrame::Complete(frames) => assert_eq!(frames.len(), 1),
        DisconnectFrame::Channels(_) => panic!("expected transitions"),
    }
    let bad = list(vec![text("channels"), list(vec![text("***")])]);
    assert_eq!(decode_disconnect_frame(&bad).unwrap_err().kind(), StoreErrorKind::Internal);
}

#[test]
fn reap_replies_name_connections_by_encoded_reference() {
    let reply = list(vec![
        ScriptValue::Integer(1),
        list(vec![text("YXBwLTE.Y29ubi0x")]),
        ScriptValue::Integer(1),
    ]);
    let (connections, done) = decode_reap_reply(&reply).unwrap();
    assert!(done);
    let (app, connection): (ApplicationId, ConnectionId) = decode_connection_reference(&connections[0]).unwrap();
    assert_eq!(app.as_str(), "app-1");
    assert_eq!(connection.as_str(), "conn-1");
    let error = decode_connection_reference(&text("no-dot")).unwrap_err();
    assert_eq!(error.message(), "invalid generation cleanup reply");
    let pending = list(vec![ScriptValue::Integer(1), list(vec![]), ScriptValue::Integer(0)]);
    assert!(!decode_reap_reply(&pending).unwrap().1);
}

#[test]
fn outbox_replies_give_entries_or_refusals() {
    let entries = decode_outbox_reply(list(vec![
        ScriptValue::Integer(1),
        list(vec![list(vec![text("1-0"), text("payload")])]),
    ]))
    .unwrap();
    assert_eq!(entries.len(), 1);
    let (id, _payload) = decode_outbox_entry(&entries[0]).unwrap();
    assert_eq!(id, "1-0");
    let refused = decode_outbox_reply(list(vec![ScriptValue::Integer(0), text("lease_lost"), text("gone")]));
    assert_eq!(refused.unwrap_err().kind(), StoreErrorKind::Conflict);
    let invalid = decode_outbox_reply(text("x")).unwrap_err();
    assert_eq!(invalid.message(), "invalid outbox reply");
    assert_eq!(decode_outbox_entry(&text("x")).unwrap_err().message(), "invalid outbox entry");
}

#[test]
fn expired_generations_must_match_their_metadata() {
    let reply = list(vec![list(vec![
        text("bm9kZS0x.00000000-0000-0000-0000-000000000007"),
        text("{}"),
    ])]);
    let entries = decode_expired_generation_entries(&reply).unwrap();
    assert_eq!(entries, vec![("bm9kZS0x.00000000-0000-0000-0000-000000000007".to_owned(), "{}".to_owned())]);
    let runs = check_generation_entries(vec![(entries[0].0.clone(), node())]).unwrap();
    assert_eq!(runs.len(), 1);
    assert_eq!(runs[0].boot_generation, 7);
    let other = NodeInstance::new(NodeId::new("node-2"), 7, Timestamp { millis: 1 });
    let error = check_generation_entries(vec![(entries[0].0.clone(), other)]).unwrap_err();
    assert_eq!(error.message(), "generation metadata does not match its index entry");
    let malformed = decode_expired_generation_entries(&list(vec![text("x")])).unwrap_err();
    assert_eq!(malformed.message(), "invalid expired generation entry");
}

#[test]
fn detach_outbox_records_publish_server_leaves_by_client() {
    let mut fields = Vec::new();
    let mut put = |name: &str, value: &str| {
        fields.push(text(name));
        fields.push(text(value));
    };
    put("format", "detach.v1");
    put("event_name", "realtime.presence_channel_changed");
    put("schema_version", "1");
    put("event_id", "00000000-0000-0000-0000-00000000002a");
    put("occurred_at_ms", "5000");
    put("presence_revision", "4");
    put("removed_count", "2");
    put("removed.1", "member-b");
    put("removed.2", "member-a");
    put("node_instance_json", "{}");
    put("connections", "0");
    put("publishers", "0");
    put("subscribers", "0");
    put("presence_connections", "0");
    put("presence_subscribers", "0");
    put("presence_members", "0");
    put("changed.connections", "1");
    put("boundary.connections", "1");
    put("channel_json", "{}");
    put("occupancy_version", "8");
    let frame = decode_outbox_frame(&list(fields)).unwrap();
    assert_eq!(frame.format, OutboxFormat::Detach);
    assert_eq!(frame.event_id, 42);
    assert_eq!(frame.presence_revision, Some(4));
    assert_eq!(frame.removed_json, vec!["member-b", "member-a"]);
    let occupancy = frame.occupancy.expect("connections changed");
    assert!(occupancy.changed_categories.connections);
    assert!(!occupancy.changed_categories.publishers);

    let event = assemble_outbox_event(
        frame,
        ChannelKey::new(ApplicationId::new("app-1"), "room"),
        node(),
        vec![payload("conn-1", "zoe", None), payload("conn-1", "amy", None)],
        Vec::new(),
    )
    .unwrap();
    assert_eq!(event.event_id(), 42);
    let change = event.change();
    assert_eq!(change.occupancy_version, 8);
    assert_eq!(change.occurred_at, Timestamp { millis: 5000 });
    let leaves: Vec<(&str, &str)> = change
        .member_changes
        .iter()
        .map(|c| (c.client_id.as_str(), c.message_id.as_str()))
        .collect();
    assert_eq!(
        leaves,
        vec![
            ("amy", "server:00000000-0000-0000-0000-00000000002a:0"),
            ("zoe", "server:00000000-0000-0000-0000-00000000002a:1"),
        ]
    );
    assert!(change.member_changes.iter().all(|c| c.action == PresenceChangeAction::Leave));
}

#[test]
fn outbox_records_of_another_schema_are_refused() {
    let fields = list(vec![
        text("format"),
        text("detach.v9"),
        text("event_name"),
        text("realtime.presence_channel_changed"),
        text("schema_version"),
        text("1"),
    ]);
    let error = decode_outbox_frame(&fields).unwrap_err();
    assert_eq!(error.message(), "unsupported outbox format or event schema");
    let duplicate = list(vec![text("format"), text("a"), text("format"), text("b")]);
    assert_eq!(
        decode_outbox_frame(&duplicate).unwrap_err().message(),
        "duplicate field format in Lua reply"
    );
}

fn presence_record(revision: &str, count: &str, extra: &[(&str, &str)]) -> ScriptValue {
    let mut fields = Vec::new();
    let mut put = |name: &str, value: &str| {
        fields.push(text(name));
        fields.push(text(value));
    };
    put("format", "presence.v2");
    put("event_name", "realtime.presence_channel_changed");
    put("schema_version", "1");
    put("event_id", "00000000-0000-0000-0000-000000000063");
    put("occurred_at_ms", "7000");
    put("presence_revision", revision);
    put("change_count", count);
    for (name, value) in extra {
        put(name, value);
    }
    put("node_instance_json", "{}");
    put("connections", "1");
    put("publishers", "1");
    put("subscribers", "1");
    put("presence_connections", "1");
    put("presence_subscribers", "1");
    put("presence_members", "1");
    put("channel_json", "{}");
    put("occupancy_version", "3");
    list(fields)
}

#[test]
fn presence_outbox_records_publish_their_changes_in_order() {
    let record = presence_record(
        "5",
        "2",
        &[
            ("change.1.action", "enter"),
            ("change.1.member", "m1"),
            ("change.2.action", "update"),
            ("change.2.member", "m2"),
            ("change.2.previous", "p2"),
        ],
    );
    let frame = decode_outbox_frame(&record).unwrap();
    assert_eq!(frame.format, OutboxFormat::Presence);
    assert_eq!(frame.presence_revision, Some(5));
    assert!(frame.occupancy.is_none());
    assert_eq!(frame.changes.len(), 2);
    assert_eq!(frame.changes[0].action, PresenceChangeAction::Enter);
    assert_eq!(frame.changes[1].previous_json.as_deref(), Some("p2"));

    let event = assemble_outbox_event(
        frame,
        ChannelKey::new(ApplicationId::new("app-1"), "room"),
        node(),
        Vec::new(),
        vec![
            (payload("conn-1", "zed", Some("1")), None),
            (payload("conn-1", "amy", Some("2")), Some(payload("conn-1", "amy", Some("[]")))),
        ],
    )
    .unwrap();
    let change = event.change();
    assert_eq!(change.presence_revision, Some(5));
    assert_eq!(change.occupancy_version, 3);
    assert!(change.occupancy.is_none());
    let order: Vec<(&str, &str)> = change
        .member_changes
        .iter()
        .map(|c| (c.client_id.as_str(), c.message_id.as_str()))
        .collect();
    assert_eq!(order, vec![("zed", "conn-1:1:0"), ("amy", "conn-1:1:0")]);
    assert_eq!(change.member_changes[1].action, PresenceChangeAction::Update);
    assert_eq!(change.member_changes[1].data, Some(serde_json::Value::Array(Vec::new())));
    assert_eq!(change.member_changes[0].data, Some(serde_json::Value::from(1)));
}

#[test]
fn presence_outbox_records_need_a_revision_and_changes() {
    let no_revision = presence_record("", "1", &[("change.1.action", "enter"), ("change.1.member", "m")]);
    assert_eq!(decode_outbox_frame(&no_revision).unwrap_err().message(), "missing Presence revision in outbox");
    let empty = presence_record("5", "0", &[]);
    assert_eq!(decode_outbox_frame(&empty).unwrap_err().message(), "empty Presence batch in outbox");
    let bad_action = presence_record("5", "1", &[("change.1.action", "jump"), ("change.1.member", "m")]);
    assert_eq!(decode_outbox_frame(&bad_action).unwrap_err().message(), "invalid Presence action in outbox");
    let missing = presence_record("5", "1", &[("change.1.action", "enter")]);
    assert_eq!(decode_outbox_frame(&missing).unwrap_err().message(), "missing Lua reply field change.1.member");
}

#[test]
fn member_data_is_read_as_json_when_present() {
    assert_eq!(decode_member_data(&payload("c", "d", None)).unwrap(), None);
    let data = decode_member_data(&payload("c", "d", Some("{\"mood\":\"happy\"}"))).unwrap();
    assert_eq!(data.unwrap()["mood"], serde_json::Value::String("happy".to_owned()));
    assert_eq!(decode_member_data(&payload("c", "d", Some("null"))).unwrap(), Some(serde_json::Value::Null));
    let error = decode_member_data(&payload("c", "d", Some("{"))).unwrap_err();
    assert_eq!(error.kind(), StoreErrorKind::Internal);
    assert!(error.message().starts_with("invalid Presence member data: "));
}

#[test]
fn snapshot_members_keep_their_stored_data() {
    let frame = decode_snapshot_frame(&list(vec![
        list(vec![
            list(vec![text("p1"), text("1"), text("10")]),
            list(vec![text("p2"), text("2"), text("20")]),
        ]),
        text("2"),
        text("5"),
        metrics(["1", "1", "1", "1", "1", "2"]),
    ]))
    .unwrap();
    let snapshot = assemble_snapshot(
        frame,
        vec![payload("conn-2", "bob", None), payload("conn-1", "amy", Some("[1,2]"))],
    )
    .unwrap();
    assert_eq!(snapshot.members[0].client_id, "amy");
    assert_eq!(
        snapshot.members[0].data,
        Some(serde_json::Value::Array(vec![serde_json::Value::from(1), serde_json::Value::from(2)]))
    );
    assert_eq!(snapshot.members[1].client_id, "bob");
    assert!(snapshot.members[1].data.is_none());
}

fn detach_record(removed: &[&str]) -> ScriptValue {
    let mut fields = Vec::new();
    let mut put = |name: &str, value: &str| {
        fields.push(text(name));
        fields.push(text(value));
    };
    put("format", "detach.v1");
    put("event_name", "realtime.presence_channel_changed");
    put("schema_version", "1");
    put("event_id", "a15bb6d5-51ea-47db-a9a5-08b41b3b2d91");
    put("occurred_at_ms", "7");
    put("presence_revision", "3");
    let count = removed.len().to_string();
    put("removed_count", &count);
    for (index, member) in removed.iter().enumerate() {
        let name = format!("removed.{}", index + 1);
        put(&name, member);
    }
    put("node_instance_json", "{}");
    put("connections", "0");
    put("publishers", "0");
    put("subscribers", "0");
    put("presence_connections", "0");
    put("presence_subscribers", "0");
    put("presence_members", "0");
    put("channel_json", "{}");
    put("occupancy_version", "4");
    list(fields)
}

#[test]
fn detach_leaves_carry_the_removed_members_data() {
    let frame = decode_outbox_frame(&detach_record(&["m-bob", "m-alice"])).unwrap();
    let event = assemble_outbox_event(
        frame,
        ChannelKey::new(ApplicationId::new("app-1"), "room"),
        node(),
        vec![payload("c", "bob", None), payload("c", "alice", Some("{\"a\":1}"))],
        Vec::new(),
    )
    .unwrap();
    assert_eq!(event.event_id(), 0xa15bb6d5_51ea_47db_a9a5_08b41b3b2d91);
    let change = event.change();
    assert_eq!(change.presence_revision, Some(3));
    assert_eq!(change.occupancy_version, 4);
    assert!(change.occupancy.is_none());
    let leaves: Vec<(&str, &str, bool)> = change
        .member_changes
        .iter()
        .map(|c| (c.client_id.as_str(), c.message_id.as_str(), c.data.is_some()))
        .collect();
    assert_eq!(
        leaves,
        vec![
            ("alice", "server:a15bb6d5-51ea-47db-a9a5-08b41b3b2d91:0", true),
            ("bob", "server:a15bb6d5-51ea-47db-a9a5-08b41b3b2d91:1", false),
        ]
    );
    assert!(change.member_changes.iter().all(|c| c.timestamp == Timestamp { millis: 7 }));
}

#[test]
fn outbox_members_with_unreadable_data_are_refused() {
    let frame = decode_outbox_frame(&detach_record(&["m"])).unwrap();
    let error = assemble_outbox_event(
        frame,
        ChannelKey::new(ApplicationId::new("app-1"), "room"),
        node(),
        vec![payload("c", "bob", Some("not json"))],
        Vec::new(),
    )
    .unwrap_err();
    assert_eq!(error.kind(), StoreErrorKind::Internal);

    let record = presence_record("5", "1", &[("change.1.action", "leave"), ("change.1.member", "m")]);
    let frame = decode_outbox_frame(&record).unwrap();
    let error = assemble_outbox_event(
        frame,
        ChannelKey::new(ApplicationId::new("app-1"), "room"),
        node(),
        Vec::new(),
        vec![(payload("c", "amy", None), Some(payload("c", "amy", Some("[1,"))))],
    )
    .unwrap_err();
    assert_eq!(error.kind(), StoreErrorKind::Internal);
}

#[test]
fn presence_batches_take_data_from_the_previous_member_else_the_member() {
    let record = presence_record(
        "5",
        "2",
        &[
            ("change.1.action", "leave"),
            ("change.1.member", "m1"),
            ("change.1.previous", "p1"),
            ("change.2.action", "enter"),
            ("change.2.member", "m2"),
        ],
    );
    let frame = decode_outbox_frame(&record).unwrap();
    let event = assemble_outbox_event(
        frame,
        ChannelKey::new(ApplicationId::new("app-1"), "room"),
        node(),
        Vec::new(),
        vec![
            (payload("c", "amy", None), Some(payload("c", "amy", Some("\"old\"")))),
            (payload("c", "bob", None), None),
        ],
    )
    .unwrap();
    let change = event.change();
    assert_eq!(change.member_changes[0].data, Some(serde_json::Value::String("old".to_owned())));
    assert_eq!(change.member_changes[0].action, PresenceChangeAction::Leave);
    assert!(change.member_changes[1].data.is_none());
}

#[test]
fn presence_batches_need_one_member_per_change() {
    let record = presence_record("5", "1", &[("change.1.action", "enter"), ("change.1.member", "m")]);
    let frame = decode_outbox_frame(&record).unwrap();
    let error = assemble_outbox_event(
        frame,
        ChannelKey::new(ApplicationId::new("app-1"), "room"),
        node(),
        Vec::new(),
        Vec::new(),
    )
    .unwrap_err();
    assert_eq!(error.kind(), StoreErrorKind::Internal);
    assert_eq!(error.message(), "invalid Presence batch in outbox");
}

#[test]
fn each_snapshot_member_has_the_document_of_its_own_text() {
    let frame = decode_snapshot_frame(&list(vec![
        list(vec![
            list(vec![text("p1"), text("1"), text("10")]),
            list(vec![text("p2"), text("2"), text("20")]),
        ]),
        text("2"),
        text("5"),
        metrics(["1", "1", "1", "1", "1", "2"]),
    ]))
    .unwrap();
    let snapshot = assemble_snapshot(
        frame,
        vec![payload("conn-1", "bob", Some("\"b\"")), payload("conn-1", "amy", Some("\"a\""))],
    )
    .unwrap();
    assert_eq!(snapshot.members[0].client_id, "amy");
    assert_eq!(snapshot.members[0].data, Some(serde_json::Value::String("a".to_owned())));
    assert_eq!(snapshot.members[1].data, Some(serde_json::Value::String("b".to_owned())));
}

#[test]
fn each_detach_leave_has_the_document_of_its_member() {
    let frame = decode_outbox_frame(&detach_record(&["m-bob", "m-amy"])).unwrap();
    let event = assemble_outbox_event(
        frame,
        ChannelKey::new(ApplicationId::new("app-1"), "room"),
        node(),
        vec![payload("c", "bob", Some("[2]")), payload("c", "amy", Some("{}"))],
        Vec::new(),
    )
    .unwrap();
    let change = event.change();
    assert_eq!(change.member_changes[0].client_id, "amy");
    assert_eq!(change.member_changes[0].data, Some(serde_json::Value::Object(serde_json::Map::new())));
    assert_eq!(change.member_changes[1].data, Some(serde_json::Value::Array(vec![serde_json::Value::from(2)])));
}

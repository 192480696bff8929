use realtime::{
    ApplicationId, AttachCommand, AttachmentTracking, ChannelKey, ChannelModes,
    ChannelStateStoreError, ClientIdPolicy, CommittedChannelTransition, ConnectionActor,
    ConnectionId, DetachCommand, DisconnectConnectionCommand, MemoryStoreState, NodeId,
    NodeInstance, PresenceActor, PresenceBatchCommand, PresenceBatchItem, PresenceChangeAction,
    PresenceLedgerPolicy, PresenceMutationAction, PresenceMutationOutcome, PresenceRejection,
    StoreErrorKind, Timestamp,
};

const START: u64 = 1_700_000_000_000;

fn node() -> NodeInstance {
    NodeInstance::new(NodeId::new("node-1"), 1, Timestamp { millis: START })
}

fn actor(connection: &str) -> ConnectionActor {
    ConnectionActor {
        application_id: ApplicationId::new("application-1"),
        connection_id: ConnectionId::new(connection),
        node_instance: node(),
    }
}

fn channel(name: &str) -> ChannelKey {
    ChannelKey::new(ApplicationId::new("application-1"), name)
}

fn modes(presence: bool) -> ChannelModes {
    ChannelModes { publish: true, subscribe: true, presence, presence_subscribe: presence }
}

fn attach(connection: &str, name: &str, presence: bool, event_id: u128) -> AttachCommand {
    AttachCommand {
        channel: channel(name),
        actor: actor(connection),
        accounting: AttachmentTracking::Individual,
        effective_modes: modes(presence),
        request_time: Timestamp { millis: START + 10 },
        event_id,
    }
}

fn detach(connection: &str, name: &str, event_id: u128) -> DetachCommand {
    DetachCommand {
        channel: channel(name),
        actor: actor(connection),
        request_time: Timestamp { millis: START + 20 },
        event_id,
    }
}

fn item(action: PresenceMutationAction, client_id: &str) -> PresenceBatchItem {
    PresenceBatchItem { action, client_id: Some(client_id.to_owned()), data: None }
}

fn batch(
    connection: &str,
    name: &str,
    serial: u64,
    fingerprint: &str,
    items: Vec<PresenceBatchItem>,
) -> PresenceBatchCommand {
    PresenceBatchCommand {
        channel: channel(name),
        actor: PresenceActor {
            connection_actor: actor(connection),
            client_id_policy: ClientIdPolicy::Wildcard,
        },
        msg_serial: serial,
        request_fingerprint: fingerprint.to_owned(),
        items,
        request_time: Timestamp { millis: START + 30 },
        event_id: 900 + serial as u128,
    }
}

fn disconnect(connection: &str, event_id: u128) -> DisconnectConnectionCommand {
    DisconnectConnectionCommand {
        actor: actor(connection),
        request_time: Timestamp { millis: START + 40 },
        event_id,
    }
}

fn store() -> MemoryStoreState {
    MemoryStoreState::new(PresenceLedgerPolicy::default_policy())
}

fn committed(outcome: &PresenceMutationOutcome) -> &CommittedChannelTransition {
    match outcome {
        PresenceMutationOutcome::Committed(transition) => transition,
        PresenceMutationOutcome::Rejected(_) => panic!("the batch must be committed"),
    }
}

#[test]
fn first_attach_counts_the_connection_and_publishes_occupancy() {
    let mut state = store();
    let outcome = state.attach(attach("conn-1", "room", true, 1)).unwrap();

    let metrics = outcome.snapshot.occupancy;
    assert_eq!(metrics.connections, 1);
    assert_eq!(metrics.publishers, 1);
    assert_eq!(metrics.subscribers, 1);
    assert_eq!(metrics.presence_connections, 1);
    assert_eq!(metrics.presence_subscribers, 1);
    assert_eq!(metrics.presence_members, 0);
    assert_eq!(outcome.snapshot.occupancy_version, 1);
    assert_eq!(outcome.snapshot.presence_revision, 0);
    assert!(outcome.snapshot.members.is_empty());

    assert_eq!(outcome.transition.occupancy_version(), 1);
    assert_eq!(outcome.transition.presence_revision(), None);
    let event = outcome.transition.event().expect("the first attach changes Occupancy");
    assert_eq!(event.event_id(), 1);
    let change = event.change();
    assert_eq!(change.channel.channel, "room");
    assert!(change.member_changes.is_empty());
    assert_eq!(change.occurred_at, Timestamp { millis: START + 10 });
    let occupancy = change.occupancy.as_ref().expect("Occupancy changed");
    assert!(occupancy.changed_categories.connections);
    assert!(!occupancy.changed_categories.presence_members);
}

#[test]
fn repeated_attach_is_idempotent() {
    let mut state = store();
    state.attach(attach("conn-1", "room", true, 1)).unwrap();
    let again = state.attach(attach("conn-1", "room", true, 2)).unwrap();

    assert_eq!(again.snapshot.occupancy.connections, 1);
    assert_eq!(again.snapshot.occupancy_version, 1);
    assert!(matches!(again.transition, CommittedChannelTransition::Unchanged { occupancy_version: 1 }));
}

#[test]
fn attach_refuses_aggregated_accounting_and_foreign_channels() {
    let mut state = store();
    let mut aggregated = attach("conn-1", "room", true, 1);
    aggregated.accounting = AttachmentTracking::Aggregated;
    let error = state.attach(aggregated).unwrap_err();
    assert_eq!(error.kind(), StoreErrorKind::InvalidRequest);
    assert_eq!(error.message(), "individual attachment accounting is required");

    let mut foreign = attach("conn-1", "room", true, 1);
    foreign.channel = ChannelKey::new(ApplicationId::new("application-2"), "room");
    let error = state.attach(foreign).unwrap_err();
    assert_eq!(error.kind(), StoreErrorKind::InvalidRequest);
    assert_eq!(error.message(), "channel and connection belong to different applications");

    let snapshot = state.channel_snapshot(&channel("room"));
    assert_eq!(snapshot.occupancy.connections, 0);
    assert_eq!(snapshot.occupancy_version, 0);
}

#[test]
fn presence_enter_commits_one_revision_and_replays() {
    let mut state = store();
    state.attach(attach("conn-1", "room", true, 1)).unwrap();
    let command = batch(
        "conn-1",
        "room",
        5,
        "fp-5",
        vec![item(PresenceMutationAction::Enter, "alice")],
    );
    let receipt = state.apply_presence(command).unwrap();
    assert!(!receipt.replayed);
    let transition = committed(&receipt.outcome);
    assert_eq!(transition.presence_revision(), Some(1));
    assert_eq!(transition.occupancy_version(), 2);
    let change = transition.event().unwrap().change();
    assert_eq!(change.member_changes.len(), 1);
    assert_eq!(change.member_changes[0].action, PresenceChangeAction::Enter);
    assert_eq!(change.member_changes[0].client_id, "alice");
    assert_eq!(change.member_changes[0].message_id, "conn-1:5:0");

    let snapshot = state.channel_snapshot(&channel("room"));
    assert_eq!(snapshot.members.len(), 1);
    assert_eq!(snapshot.members[0].client_id, "alice");
    assert_eq!(snapshot.members[0].last_message_id, "conn-1:5:0");
    assert_eq!(snapshot.presence_revision, 1);
    assert_eq!(snapshot.occupancy.presence_members, 1);

    let replay = state
        .apply_presence(batch(
            "conn-1",
            "room",
            5,
            "fp-5",
            vec![item(PresenceMutationAction::Enter, "alice")],
        ))
        .unwrap();
    assert!(replay.replayed);
    let replayed = committed(&replay.outcome);
    assert_eq!(replayed.presence_revision(), Some(1));
    assert_eq!(replayed.event().unwrap().event_id(), 905);
    assert_eq!(state.channel_snapshot(&channel("room")).presence_revision, 1);
}

#[test]
fn presence_replay_with_another_fingerprint_conflicts() {
    let mut state = store();
    state.attach(attach("conn-1", "room", true, 1)).unwrap();
    state
        .apply_presence(batch("conn-1", "room", 5, "fp-5", vec![item(PresenceMutationAction::Enter, "alice")]))
        .unwrap();
    let receipt = state
        .apply_presence(batch("conn-1", "room", 5, "other", vec![item(PresenceMutationAction::Enter, "bob")]))
        .unwrap();
    assert!(matches!(receipt.outcome, PresenceMutationOutcome::Rejected(PresenceRejection::ConflictingReplay)));
    assert_eq!(state.channel_snapshot(&channel("room")).members.len(), 1);
}

#[test]
fn presence_without_attachment_or_mode_is_rejected() {
    let mut state = store();
    let receipt = state
        .apply_presence(batch("conn-1", "room", 1, "fp-1", vec![item(PresenceMutationAction::Enter, "alice")]))
        .unwrap();
    assert!(matches!(receipt.outcome, PresenceMutationOutcome::Rejected(PresenceRejection::NotAttached)));

    state.attach(attach("conn-1", "room", false, 1)).unwrap();
    let receipt = state
        .apply_presence(batch("conn-1", "room", 2, "fp-2", vec![item(PresenceMutationAction::Enter, "alice")]))
        .unwrap();
    assert!(matches!(
        receipt.outcome,
        PresenceMutationOutcome::Rejected(PresenceRejection::PresenceModeNotEnabled)
    ));
}

#[test]
fn presence_batch_is_all_or_nothing() {
    let mut state = store();
    state.attach(attach("conn-1", "room", true, 1)).unwrap();
    let receipt = state
        .apply_presence(batch(
            "conn-1",
            "room",
            1,
            "fp-1",
            vec![
                item(PresenceMutationAction::Enter, "alice"),
                item(PresenceMutationAction::Update, "bob"),
            ],
        ))
        .unwrap();
    assert!(matches!(receipt.outcome, PresenceMutationOutcome::Rejected(_)));
    let snapshot = state.channel_snapshot(&channel("room"));
    assert!(snapshot.members.is_empty());
    assert_eq!(snapshot.presence_revision, 0);
}

#[test]
fn detach_removes_members_with_server_leaves_and_repeats_unchanged() {
    let mut state = store();
    state.attach(attach("conn-1", "room", true, 1)).unwrap();
    state
        .apply_presence(batch("conn-1", "room", 1, "fp-1", vec![item(PresenceMutationAction::Enter, "alice")]))
        .unwrap();

    let transition = state.detach(detach("conn-1", "room", 77)).unwrap();
    assert_eq!(transition.presence_revision(), Some(2));
    assert_eq!(transition.occupancy_version(), 3);
    let change = transition.event().unwrap().change();
    assert_eq!(change.member_changes.len(), 1);
    assert_eq!(change.member_changes[0].action, PresenceChangeAction::Leave);
    assert_eq!(change.member_changes[0].client_id, "alice");
    assert_eq!(
        change.member_changes[0].message_id,
        "server:00000000-0000-0000-0000-00000000004d:0"
    );

    let snapshot = state.channel_snapshot(&channel("room"));
    assert!(snapshot.members.is_empty());
    assert_eq!(snapshot.occupancy.connections, 0);

    let again = state.detach(detach("conn-1", "room", 78)).unwrap();
    assert!(matches!(again, CommittedChannelTransition::Unchanged { occupancy_version: 3 }));
}

#[test]
fn disconnect_detaches_every_channel_and_closes_the_connection() {
    let mut state = store();
    state.attach(attach("conn-1", "room-b", true, 1)).unwrap();
    state.attach(attach("conn-1", "room-a", true, 2)).unwrap();

    let transitions = state.disconnect(disconnect("conn-1", 500)).unwrap();
    assert_eq!(transitions.len(), 2);
    let first = transitions[0].event().unwrap().change();
    let second = transitions[1].event().unwrap().change();
    assert_eq!(first.channel.channel, "room-a");
    assert_eq!(second.channel.channel, "room-b");
    assert_eq!(state.channel_snapshot(&channel("room-a")).occupancy.connections, 0);
    assert_eq!(state.channel_snapshot(&channel("room-b")).occupancy.connections, 0);

    let again = state.disconnect(disconnect("conn-1", 501)).unwrap();
    assert!(again.is_empty());

    let error: ChannelStateStoreError = state.attach(attach("conn-1", "room-a", true, 3)).unwrap_err();
    assert_eq!(error.kind(), StoreErrorKind::Conflict);
    assert_eq!(error.message(), "connection conn-1 is closed and cannot attach");
}

#[test]
fn closed_journals_are_swept_after_retention() {
    let mut state = MemoryStoreState::new(PresenceLedgerPolicy { capacity: 4, retention_millis: 1000 });
    state.attach(attach("conn-1", "room", true, 1)).unwrap();
    state.disconnect(disconnect("conn-1", 500)).unwrap();

    assert_eq!(state.sweep_presence_ledgers(Timestamp { millis: START + 40 + 1000 }), 0);
    assert!(state.attach(attach("conn-1", "room", true, 2)).is_err());
    assert_eq!(state.sweep_presence_ledgers(Timestamp { millis: START + 40 + 1001 }), 1);
    assert!(state.attach(attach("conn-1", "room", true, 3)).is_ok());
}

#[test]
fn member_data_is_kept_as_given() {
    let mut state = store();
    state.attach(attach("conn-1", "room", true, 1)).unwrap();
    let mut data = serde_json::Map::new();
    data.insert("mood".to_owned(), serde_json::Value::String("happy".to_owned()));
    let entered = PresenceBatchItem {
        action: PresenceMutationAction::Enter,
        client_id: Some("alice".to_owned()),
        data: Some(serde_json::Value::Object(data.clone())),
    };
    let receipt = state.apply_presence(batch("conn-1", "room", 1, "fp-1", vec![entered])).unwrap();
    let change = committed(&receipt.outcome).event().unwrap().change();
    assert_eq!(change.member_changes[0].data, Some(serde_json::Value::Object(data.clone())));
    let snapshot = state.channel_snapshot(&channel("room"));
    assert_eq!(snapshot.members[0].data, Some(serde_json::Value::Object(data)));
}

#[test]
fn a_closed_journal_replays_known_operations_and_refuses_new_ones() {
    let mut state = store();
    state.attach(attach("conn-1", "room", true, 1)).unwrap();
    let enter = || batch("conn-1", "room", 3, "fp-3", vec![item(PresenceMutationAction::Enter, "alice")]);
    state.apply_presence(enter()).unwrap();
    state.disconnect(disconnect("conn-1", 500)).unwrap();

    let late = state.apply_presence(enter()).unwrap();
    assert!(late.replayed);
    assert_eq!(committed(&late.outcome).presence_revision(), Some(1));

    let other = state
        .apply_presence(batch("conn-1", "room", 3, "other", vec![item(PresenceMutationAction::Enter, "alice")]))
        .unwrap();
    assert!(matches!(other.outcome, PresenceMutationOutcome::Rejected(PresenceRejection::ConflictingReplay)));

    let new = state
        .apply_presence(batch("conn-1", "room", 4, "fp-4", vec![item(PresenceMutationAction::Enter, "bob")]))
        .unwrap();
    assert!(!new.replayed);
    assert!(matches!(new.outcome, PresenceMutationOutcome::Rejected(PresenceRejection::ConnectionClosed)));
    assert!(state.channel_snapshot(&channel("room")).members.is_empty());
}

#[test]
fn attach_retried_later_with_another_event_is_unchanged() {
    let mut state = store();
    let first = state.attach(attach("conn-1", "room", true, 1)).unwrap();
    let mut retry = attach("conn-1", "room", true, 77);
    retry.request_time = Timestamp { millis: START + 500 };
    let again = state.attach(retry).unwrap();
    assert!(matches!(again.transition, CommittedChannelTransition::Unchanged { occupancy_version: 1 }));
    assert_eq!(again.snapshot.occupancy_version, first.snapshot.occupancy_version);
    assert_eq!(again.snapshot.occupancy.connections, first.snapshot.occupancy.connections);
    assert_eq!(again.snapshot.members.len(), first.snapshot.members.len());
}

#[test]
fn a_conflicting_command_leaves_the_first_outcome_replayable() {
    let mut state = store();
    state.attach(attach("conn-1", "room", true, 1)).unwrap();
    state
        .apply_presence(batch("conn-1", "room", 8, "fp-8", vec![item(PresenceMutationAction::Enter, "alice")]))
        .unwrap();
    let conflict = state
        .apply_presence(batch("conn-1", "room", 8, "fp-x", vec![item(PresenceMutationAction::Enter, "bob")]))
        .unwrap();
    assert!(!conflict.replayed);
    assert!(matches!(conflict.outcome, PresenceMutationOutcome::Rejected(PresenceRejection::ConflictingReplay)));
    let again = state
        .apply_presence(batch("conn-1", "room", 8, "fp-8", vec![item(PresenceMutationAction::Enter, "alice")]))
        .unwrap();
    assert!(again.replayed);
    assert!(matches!(again.outcome, PresenceMutationOutcome::Committed(_)));
    assert_eq!(state.channel_snapshot(&channel("room")).presence_revision, 1);
}

use realtime::{
    ApplicationId, ChannelKey, CommittedChannelTransition, CommittedPresenceEvent, NodeId,
    NodeInstance, PresenceChannelChanged, PresenceMutationOutcome, Timestamp,
};

fn change(presence_revision: Option<u64>) -> PresenceChannelChanged {
    PresenceChannelChanged {
        channel: ChannelKey::new(ApplicationId::new("application-1"), "room-1"),
        origin: NodeInstance::new(
            NodeId::new("node-1"),
            uuid::Uuid::parse_str("293a2951-5ba0-482c-91c7-0a0c72a5ce4b").unwrap().as_u128(),
            Timestamp { millis: 1_700_000_000_000 },
        ),
        presence_revision,
        occupancy_version: 7,
        member_changes: Vec::new(),
        occupancy: None,
        occurred_at: Timestamp { millis: 1_700_000_000_000 },
    }
}

#[test]
fn unchanged_round_trip_preserves_version_without_an_event() {
    let transition = CommittedChannelTransition::Unchanged { occupancy_version: 7 };
    assert_eq!(transition.occupancy_version(), 7);
    assert_eq!(transition.presence_revision(), None);
    assert!(transition.event().is_none());
}

#[test]
fn committed_outcome_round_trip_preserves_event_and_its_versions() {
    let event_id = uuid::Uuid::parse_str("a15bb6d5-51ea-47db-a9a5-08b41b3b2d91").unwrap().as_u128();
    // Occupancy-only events have no new Presence revision.
    for presence_revision in [None, Some(11)] {
        let event = CommittedPresenceEvent::new(event_id, change(presence_revision));
        let outcome = PresenceMutationOutcome::Committed(CommittedChannelTransition::Changed(event));
        let PresenceMutationOutcome::Committed(transition) = outcome else {
            panic!("committed outcome must stay committed");
        };
        assert_eq!(transition.presence_revision(), presence_revision);
        assert_eq!(transition.occupancy_version(), 7);
        assert_eq!(transition.event().unwrap().event_id(), event_id);
    }
}

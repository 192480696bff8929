use realtime::{ApplicationId, Connection, ConnectionId, NodeId, NodeInstance, Timestamp};

fn test_node_instance() -> NodeInstance {
    NodeInstance::new(NodeId::new("test-node"), 42, Timestamp { millis: 1_700_000_000_000 })
}

fn connection() -> Connection {
    Connection::new(
        ConnectionId::new("conn-1"),
        ApplicationId::new("application-1"),
        test_node_instance(),
        "key-1".to_owned(),
        Some("client-123".to_owned()),
        Timestamp { millis: 1_700_000_000_500 },
    )
}

#[test]
fn connection_keeps_the_creating_application_id() {
    let connection = connection();
    assert_eq!(connection.application_id().as_str(), "application-1");
}

#[test]
fn connection_keeps_the_creating_node_instance() {
    let expected = test_node_instance();
    let connection = connection();
    assert_eq!(connection.node_instance().node_id.as_str(), expected.node_id.as_str());
    assert_eq!(connection.node_instance().boot_generation, expected.boot_generation);
    assert_eq!(connection.actor().node_instance.started_at, expected.started_at);
    assert_eq!(connection.actor().connection_id.as_str(), "conn-1");
}

#[test]
fn connection_key_and_client_stay_as_created() {
    let connection = connection();
    assert_eq!(connection.connection_key(), "key-1");
    assert_eq!(connection.connection_key(), connection.connection_key());
    assert_eq!(connection.client_id(), Some("client-123"));
}

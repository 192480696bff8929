use vstd::prelude::*;

use crate::ids::{ApplicationId, ConnectionActor, ConnectionId, NodeInstance, Timestamp};

verus! {

/// A client connection of an application, served by one run of a node. The
/// client identifier is the one its access token names, if any.
#[derive(Debug)]
pub struct Connection {
    pub id: ConnectionId,
    application_id: ApplicationId,
    node_instance: NodeInstance,
    connection_key: String,
    pub client_id: Option<String>,
    pub connected_at: Timestamp,
}

/// Mathematical content of a [`Connection`].
pub struct ConnectionView {
    pub id: Seq<char>,
    pub application_id: Seq<char>,
    pub node_instance: (Seq<char>, u128, u64),
    pub connection_key: Seq<char>,
    pub client_id: Option<Seq<char>>,
    pub connected_at: Timestamp,
}

impl View for Connection {
    type V = ConnectionView;

    closed spec fn view(&self) -> ConnectionView {
        ConnectionView {
            id: self.id@,
            application_id: self.application_id@,
            node_instance: self.node_instance@,
            connection_key: self.connection_key@,
            client_id: match self.client_id {
                Some(c) => Some(c@),
                None => None,
            },
            connected_at: self.connected_at,
        }
    }
}

impl Connection {
    /// A connection of the application, served by the given node run; it
    /// keeps the application, the node run and its key for its lifetime.
    pub fn new(
        id: ConnectionId,
        application_id: ApplicationId,
        node_instance: NodeInstance,
        connection_key: String,
        client_id: Option<String>,
        connected_at: Timestamp,
    ) -> (r: Self)
        ensures
            r@.id == id@,
            r@.application_id == application_id@,
            r@.node_instance == node_instance@,
            r@.connection_key == connection_key@,
            r@.client_id == match client_id {
                Some(c) => Some(c@),
                None => None::<Seq<char>>,
            },
            r@.connected_at == connected_at,
    {
        Connection { id, application_id, node_instance, connection_key, client_id, connected_at }
    }

    pub fn application_id(&self) -> (r: &ApplicationId)
        ensures
            r@ == self@.application_id,
    {
        &self.application_id
    }

    pub fn node_instance(&self) -> (r: &NodeInstance)
        ensures
            r@ == self@.node_instance,
    {
        &self.node_instance
    }

    /// The connection as the actor of store operations.
    pub fn actor(&self) -> (r: ConnectionActor)
        ensures
            r.application_id@ == self@.application_id,
            r.connection_id@ == self@.id,
            r.node_instance@ == self@.node_instance,
    {
        ConnectionActor {
            application_id: self.application_id.clone(),
            connection_id: self.id.clone(),
            node_instance: self.node_instance.clone(),
        }
    }

    pub fn connection_key(&self) -> (r: &str)
        ensures
            r@ == self@.connection_key,
    {
        self.connection_key.as_str()
    }

    pub fn client_id(&self) -> (r: Option<&str>)
        ensures
            match (r, self@.client_id) {
                (Some(text), Some(c)) => text@ == c,
                (None, None) => true,
                _ => false,
            },
    {
        match &self.client_id {
            Some(c) => Some(c.as_str()),
            None => None,
        }
    }
}

} // verus!

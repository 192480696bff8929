use vstd::prelude::*;

verus! {

/// Identifier of a realtime application.
#[derive(Debug)]
pub struct ApplicationId(pub String);

/// Identifier of a client connection, unique within its application.
#[derive(Debug)]
pub struct ConnectionId(pub String);

/// Identifier of a node, stable across its restarts.
#[derive(Debug)]
pub struct NodeId(pub String);

/// Milliseconds since the Unix epoch.
#[derive(PartialEq, Eq, Structural, Clone, Copy, Debug)]
pub struct Timestamp {
    pub millis: u64,
}

/// One run of a node: the node, the identifier of this boot and when it started.
#[derive(Debug)]
pub struct NodeInstance {
    pub node_id: NodeId,
    /// Identifier of this boot of the node (a UUID as its 128-bit value).
    pub boot_generation: u128,
    pub started_at: Timestamp,
}

/// A channel within one application.
#[derive(Debug)]
pub struct ChannelKey {
    pub application_id: ApplicationId,
    pub channel: String,
}

/// The connection on whose behalf a store operation runs.
#[derive(Debug)]
pub struct ConnectionActor {
    pub application_id: ApplicationId,
    pub connection_id: ConnectionId,
    pub node_instance: NodeInstance,
}

/// A connection within its application.
#[derive(Debug)]
pub struct ConnectionKey {
    pub application_id: ApplicationId,
    pub connection_id: ConnectionId,
}

impl View for ApplicationId {
    type V = Seq<char>;

    open spec fn view(&self) -> Seq<char> {
        self.0@
    }
}

impl View for ConnectionId {
    type V = Seq<char>;

    open spec fn view(&self) -> Seq<char> {
        self.0@
    }
}

impl View for NodeId {
    type V = Seq<char>;

    open spec fn view(&self) -> Seq<char> {
        self.0@
    }
}

impl View for NodeInstance {
    type V = (Seq<char>, u128, u64);

    open spec fn view(&self) -> (Seq<char>, u128, u64) {
        (self.node_id@, self.boot_generation, self.started_at.millis)
    }
}

impl View for ChannelKey {
    type V = (Seq<char>, Seq<char>);

    open spec fn view(&self) -> (Seq<char>, Seq<char>) {
        (self.application_id@, self.channel@)
    }
}

impl View for ConnectionKey {
    type V = (Seq<char>, Seq<char>);

    open spec fn view(&self) -> (Seq<char>, Seq<char>) {
        (self.application_id@, self.connection_id@)
    }
}

impl ApplicationId {
    pub fn new(value: &str) -> (r: Self)
        ensures
            r@ == value@,
    {
        ApplicationId(value.to_owned())
    }

    pub fn as_str(&self) -> (r: &str)
        ensures
            r@ == self@,
    {
        self.0.as_str()
    }

    pub fn same_as(&self, other: &ApplicationId) -> (r: bool)
        ensures
            r == (self@ == other@),
    {
        self.0 == other.0
    }
}

impl ConnectionId {
    pub fn new(value: &str) -> (r: Self)
        ensures
            r@ == value@,
    {
        ConnectionId(value.to_owned())
    }

    pub fn as_str(&self) -> (r: &str)
        ensures
            r@ == self@,
    {
        self.0.as_str()
    }

    pub fn same_as(&self, other: &ConnectionId) -> (r: bool)
        ensures
            r == (self@ == other@),
    {
        self.0 == other.0
    }
}

impl NodeId {
    pub fn new(value: &str) -> (r: Self)
        ensures
            r@ == value@,
    {
        NodeId(value.to_owned())
    }

    pub fn as_str(&self) -> (r: &str)
        ensures
            r@ == self@,
    {
        self.0.as_str()
    }
}

impl NodeInstance {
    pub fn new(node_id: NodeId, boot_generation: u128, started_at: Timestamp) -> (r: Self)
        ensures
            r.node_id == node_id,
            r.boot_generation == boot_generation,
            r.started_at == started_at,
    {
        NodeInstance { node_id, boot_generation, started_at }
    }

    /// Whether both values describe the same run, start time included.
    pub fn same_as(&self, other: &NodeInstance) -> (r: bool)
        ensures
            r == (self@ == other@),
    {
        self.node_id.0 == other.node_id.0 && self.boot_generation == other.boot_generation
            && self.started_at.millis == other.started_at.millis
    }

    /// Whether both values describe the same boot of the same node.
    pub fn same_generation(&self, other: &NodeInstance) -> (r: bool)
        ensures
            r == (self.node_id@ == other.node_id@ && self.boot_generation
                == other.boot_generation),
    {
        self.node_id.0 == other.node_id.0 && self.boot_generation == other.boot_generation
    }
}

impl ChannelKey {
    pub fn new(application_id: ApplicationId, channel: &str) -> (r: Self)
        ensures
            r.application_id == application_id,
            r.channel@ == channel@,
    {
        ChannelKey { application_id, channel: channel.to_owned() }
    }

    /// Whether the channel lies in the given application.
    pub fn belongs_to_application(&self, application_id: &ApplicationId) -> (r: bool)
        ensures
            r == (self.application_id@ == application_id@),
    {
        self.application_id.same_as(application_id)
    }

    pub fn same_as(&self, other: &ChannelKey) -> (r: bool)
        ensures
            r == (self@ == other@),
    {
        self.application_id.same_as(&other.application_id) && self.channel == other.channel
    }
}

impl ConnectionKey {
    /// The key of the actor's connection.
    pub fn of_actor(actor: &ConnectionActor) -> (r: Self)
        ensures
            r.application_id == actor.application_id,
            r.connection_id == actor.connection_id,
    {
        ConnectionKey {
            application_id: actor.application_id.clone(),
            connection_id: actor.connection_id.clone(),
        }
    }

    pub fn same_as(&self, other: &ConnectionKey) -> (r: bool)
        ensures
            r == (self@ == other@),
    {
        self.application_id.same_as(&other.application_id) && self.connection_id.same_as(
            &other.connection_id,
        )
    }
}

impl Clone for ApplicationId {
    fn clone(&self) -> (r: Self)
        ensures
            r == *self,
    {
        ApplicationId(self.0.clone())
    }
}

impl Clone for ConnectionId {
    fn clone(&self) -> (r: Self)
        ensures
            r == *self,
    {
        ConnectionId(self.0.clone())
    }
}

impl Clone for NodeId {
    fn clone(&self) -> (r: Self)
        ensures
            r == *self,
    {
        NodeId(self.0.clone())
    }
}

impl Clone for NodeInstance {
    fn clone(&self) -> (r: Self)
        ensures
            r == *self,
    {
        NodeInstance {
            node_id: self.node_id.clone(),
            boot_generation: self.boot_generation,
            started_at: self.started_at,
        }
    }
}

impl Clone for ChannelKey {
    fn clone(&self) -> (r: Self)
        ensures
            r == *self,
    {
        ChannelKey { application_id: self.application_id.clone(), channel: self.channel.clone() }
    }
}

impl Clone for ConnectionActor {
    fn clone(&self) -> (r: Self)
        ensures
            r == *self,
    {
        ConnectionActor {
            application_id: self.application_id.clone(),
            connection_id: self.connection_id.clone(),
            node_instance: self.node_instance.clone(),
        }
    }
}

impl Clone for ConnectionKey {
    fn clone(&self) -> (r: Self)
        ensures
            r == *self,
    {
        ConnectionKey {
            application_id: self.application_id.clone(),
            connection_id: self.connection_id.clone(),
        }
    }
}

} // verus!

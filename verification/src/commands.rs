use vstd::prelude::*;

use crate::ids::{ChannelKey, ConnectionActor, Timestamp};
use crate::protocol::{
    Attachment, AttachmentTracking, ChannelModes, PresenceMutationAction, PresenceSnapshot,
    SnapshotView, AttachmentView,
};
use crate::text::{decimal, push_char, push_decimal, push_str, same_text};
use crate::transition::{CommittedChannelTransition, TransitionView};

verus! {

/// Which client identifiers a connection may act for in Presence.
#[derive(Debug)]
pub enum ClientIdPolicy {
    /// Any client identifier.
    Wildcard,
    /// Exactly this client identifier.
    Fixed(String),
    /// None: the connection is anonymous.
    Anonymous,
}

/// Mathematical content of [`ClientIdPolicy`].
pub enum ClientIdPolicyView {
    Wildcard,
    Fixed(Seq<char>),
    Anonymous,
}

impl View for ClientIdPolicy {
    type V = ClientIdPolicyView;

    open spec fn view(&self) -> ClientIdPolicyView {
        match self {
            ClientIdPolicy::Wildcard => ClientIdPolicyView::Wildcard,
            ClientIdPolicy::Fixed(id) => ClientIdPolicyView::Fixed(id@),
            ClientIdPolicy::Anonymous => ClientIdPolicyView::Anonymous,
        }
    }
}

impl ClientIdPolicyView {
    pub open spec fn permits(self, client_id: Seq<char>) -> bool {
        match self {
            ClientIdPolicyView::Wildcard => true,
            ClientIdPolicyView::Fixed(id) => id == client_id,
            ClientIdPolicyView::Anonymous => false,
        }
    }
}

impl ClientIdPolicy {
    /// Whether the connection may act for `client_id`.
    pub fn allows(&self, client_id: &str) -> (r: bool)
        ensures
            r == self@.permits(client_id@),
    {
        match self {
            ClientIdPolicy::Wildcard => true,
            ClientIdPolicy::Fixed(id) => same_text(id.as_str(), client_id),
            ClientIdPolicy::Anonymous => false,
        }
    }
}

/// The connection sending a Presence command and the client identifiers it may use.
#[derive(Debug)]
pub struct PresenceActor {
    pub connection_actor: ConnectionActor,
    pub client_id_policy: ClientIdPolicy,
}

/// One action of a Presence batch.
#[derive(Debug)]
pub struct PresenceBatchItem {
    pub action: PresenceMutationAction,
    pub client_id: Option<String>,
    pub data: Option<serde_json::Value>,
}

/// Mathematical content of [`PresenceBatchItem`].
pub struct ItemView {
    pub action: PresenceMutationAction,
    pub client_id: Option<Seq<char>>,
    pub data: Option<serde_json::Value>,
}

impl View for PresenceBatchItem {
    type V = ItemView;

    open spec fn view(&self) -> ItemView {
        ItemView {
            action: self.action,
            client_id: match self.client_id {
                Some(id) => Some(id@),
                None => None,
            },
            data: self.data,
        }
    }
}


/// A batch of client Presence actions of one connection on one channel.
#[derive(Debug)]
pub struct PresenceBatchCommand {
    pub channel: ChannelKey,
    pub actor: PresenceActor,
    /// The client's serial of this operation within its connection.
    pub msg_serial: u64,
    /// Digest of the original command, to tell a replay from a different command.
    pub request_fingerprint: String,
    pub items: Vec<PresenceBatchItem>,
    pub request_time: Timestamp,
    pub event_id: u128,
}

/// Identifier of the message that carries item `index` of operation `serial`
/// of a connection: `<connection>:<serial>:<index>`.
pub open spec fn client_message_id(connection: Seq<char>, serial: u64, index: nat) -> Seq<char> {
    connection + seq![':'] + decimal(serial as nat) + seq![':'] + decimal(index)
}

impl PresenceBatchCommand {
    /// Identifier of the message of item `index`.
    pub fn message_id(&self, index: usize) -> (r: String)
        ensures
            r@ == client_message_id(
                self.actor.connection_actor.connection_id@,
                self.msg_serial,
                index as nat,
            ),
    {
        let mut id = String::new();
        push_str(&mut id, self.actor.connection_actor.connection_id.as_str());
        push_char(&mut id, ':');
        push_decimal(&mut id, self.msg_serial);
        push_char(&mut id, ':');
        push_decimal(&mut id, index as u64);
        assert(id@ =~= client_message_id(
            self.actor.connection_actor.connection_id@,
            self.msg_serial,
            index as nat,
        ));
        id
    }
}

/// A request to attach a connection to a channel.
#[derive(Debug)]
pub struct AttachCommand {
    pub channel: ChannelKey,
    pub actor: ConnectionActor,
    pub accounting: AttachmentTracking,
    pub effective_modes: ChannelModes,
    pub request_time: Timestamp,
    pub event_id: u128,
}

impl AttachCommand {
    pub open spec fn spec_attachment(&self) -> AttachmentView {
        AttachmentView {
            connection_id: self.actor.connection_id@,
            node_instance: self.actor.node_instance@,
            accounting: self.accounting,
            effective_modes: self.effective_modes,
        }
    }

    /// The attachment this command stores.
    pub fn to_attachment(&self) -> (r: Attachment)
        ensures
            r@ == self.spec_attachment(),
            r.connection_id == self.actor.connection_id,
            r.node_instance == self.actor.node_instance,
    {
        Attachment {
            connection_id: self.actor.connection_id.clone(),
            node_instance: self.actor.node_instance.clone(),
            accounting: self.accounting,
            effective_modes: self.effective_modes,
        }
    }
}

/// A request to detach a connection from one channel.
#[derive(Debug)]
pub struct DetachCommand {
    pub channel: ChannelKey,
    pub actor: ConnectionActor,
    pub request_time: Timestamp,
    pub event_id: u128,
}

/// The limits of the per-connection journals of Presence operations.
#[derive(PartialEq, Eq, Structural, Clone, Copy, Debug)]
pub struct PresenceLedgerPolicy {
    /// How many operations a journal remembers.
    pub capacity: usize,
    /// How long a closed journal is kept, in milliseconds.
    pub retention_millis: u64,
}

impl PresenceLedgerPolicy {
    pub open spec fn spec_default() -> Self {
        PresenceLedgerPolicy { capacity: 256, retention_millis: 120_000 }
    }

    pub fn default_policy() -> (r: Self)
        ensures
            r == Self::spec_default(),
    {
        PresenceLedgerPolicy { capacity: 256, retention_millis: 120_000 }
    }
}

/// The result of an attach: the stored attachment, the snapshot of the
/// channel after it and the committed transition.
#[derive(Debug)]
pub struct ChannelAttachOutcome {
    pub attachment: Attachment,
    pub snapshot: PresenceSnapshot,
    pub transition: CommittedChannelTransition,
}

/// Mathematical content of [`ChannelAttachOutcome`].
pub struct AttachOutcomeView {
    pub attachment: AttachmentView,
    pub snapshot: SnapshotView,
    pub transition: TransitionView,
}

impl View for ChannelAttachOutcome {
    type V = AttachOutcomeView;

    open spec fn view(&self) -> AttachOutcomeView {
        AttachOutcomeView {
            attachment: self.attachment@,
            snapshot: self.snapshot@,
            transition: self.transition@,
        }
    }
}


/// The version-5 UUID of the UTF-8 text `name` in the namespace `namespace`,
/// as a number.
pub uninterp spec fn uuid_v5(namespace: u128, name: Seq<char>) -> u128;

/// Calls `uuid::Uuid::new_v5` with the namespace and the UTF-8 bytes of `name`.
/// The result is a SHA-1 digest of both; the contract names it and claims
/// nothing more of it.
#[verifier::external_body]
fn derive_uuid(namespace: u128, name: &str) -> (r: u128)
    ensures
        r == uuid_v5(namespace, name@),
{
    uuid::Uuid::new_v5(&uuid::Uuid::from_u128(namespace), name.as_bytes()).as_u128()
}

/// A request to clean up the Presence state of a finished connection.
#[derive(Debug)]
pub struct DisconnectConnectionCommand {
    /// The connection: application, identifier and node instance.
    pub actor: ConnectionActor,
    /// When the server started handling the disconnect.
    pub request_time: Timestamp,
    /// A fresh base identifier of this command's events; each channel's event
    /// identifier is derived from it.
    pub event_id: u128,
}

impl DisconnectConnectionCommand {
    /// The event identifier of the detach from the channel named `channel`.
    pub open spec fn spec_channel_event_id(&self, channel: Seq<char>) -> u128 {
        uuid_v5(self.event_id, channel)
    }

    /// The event identifier of the detach from one of the connection's channels.
    ///
    /// It depends only on the command's base identifier and the channel's name.
    pub fn channel_event_id(&self, channel: &ChannelKey) -> (r: u128)
        ensures
            r == self.spec_channel_event_id(channel.channel@),
    {
        derive_uuid(self.event_id, channel.channel.as_str())
    }
}
} // verus!

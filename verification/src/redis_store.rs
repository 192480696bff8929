use vstd::prelude::*;

use crate::channel::{err_view, ErrView};
use crate::commands::{
    client_message_id, AttachCommand, DetachCommand, DisconnectConnectionCommand,
    PresenceBatchCommand, PresenceLedgerPolicy,
};
use crate::error::{ChannelStateStoreError, StoreErrorKind};
use crate::ids::{ChannelKey, ConnectionActor, NodeInstance};
use crate::keys::{
    base64_url, fixed_digits, generation, generation_id, operation_serial, segment,
    spec_channel_key, spec_connection_key, spec_generation_key, spec_key, RedisKeys,
};
use crate::protocol::{AttachmentTracking, ChannelModes, PresenceMutationAction};
use crate::sorting::texts_view;
use crate::text::{decimal, hyphenated_uuid, push_decimal, same_text, uuid_text};

verus! {

/// A lease the store holds, as its scripts see it: the lease key, the owner
/// it was taken for, and the token value the scripts check.
#[derive(Debug)]
pub struct HeldLease {
    pub key: String,
    pub owner: String,
    pub value: String,
}

/// Mathematical content of a [`HeldLease`].
pub struct LeaseView {
    pub key: Seq<char>,
    pub owner: Seq<char>,
    pub value: Seq<char>,
}

impl View for HeldLease {
    type V = LeaseView;

    open spec fn view(&self) -> LeaseView {
        LeaseView { key: self.key@, owner: self.owner@, value: self.value@ }
    }
}

impl Clone for HeldLease {
    fn clone(&self) -> (r: Self)
        ensures
            r@ == self@,
    {
        HeldLease { key: self.key.clone(), owner: self.owner.clone(), value: self.value.clone() }
    }
}

/// Why a node lease could not be used or taken.
#[derive(Debug)]
pub enum NodeLeaseError {
    /// The lease key is not the node's lease key in this namespace.
    NamespaceMismatch,
    /// The request to Redis failed; the text says how.
    Redis(String),
    /// The lease service refused the request; the text says why.
    Lease(String),
    /// The node run's metadata could not be written as JSON.
    Metadata(String),
}

/// The key of a node's lease in a namespace.
pub open spec fn node_lease_key(namespace: Seq<char>, node_id: Seq<char>) -> Seq<char> {
    spec_key(namespace, "lease.node."@ + base64_url(node_id))
}

/// One run of a node with the token of the lease it took.
#[derive(Debug)]
pub struct NodeLease {
    instance: NodeInstance,
    token: HeldLease,
}

/// Mathematical content of a [`NodeLease`].
pub struct NodeLeaseView {
    pub instance: (Seq<char>, u128, u64),
    pub token: LeaseView,
}

impl View for NodeLease {
    type V = NodeLeaseView;

    closed spec fn view(&self) -> NodeLeaseView {
        NodeLeaseView { instance: self.instance@, token: self.token@ }
    }
}

impl NodeLease {
    /// The lease of a run, once its token was acquired.
    pub fn new(instance: NodeInstance, token: HeldLease) -> (r: Self)
        ensures
            r@ == (NodeLeaseView { instance: instance@, token: token@ }),
    {
        NodeLease { instance, token }
    }

    /// The node run the lease was taken for.
    pub fn instance(&self) -> (r: &NodeInstance)
        ensures
            r@ == self@.instance,
    {
        &self.instance
    }

    /// The token of the lease.
    pub fn token(&self) -> (r: &HeldLease)
        ensures
            r@ == self@.token,
    {
        &self.token
    }
}

/// The outcome of claiming the lease of a node run.
#[derive(Debug)]
pub enum NodeClaimOutcome {
    /// The lease was taken, and the run and its deadline were registered.
    Acquired { lease: NodeLease },
    /// Another run of the node holds the lease for this many milliseconds.
    Held { remaining_millis: u64 },
}

/// What a store is set up with: its key namespace, its node run and lease
/// token, its journal limits, and whether it still serves requests.
pub struct RedisStoreView {
    pub namespace: Seq<char>,
    pub instance: (Seq<char>, u128, u64),
    pub lease: LeaseView,
    pub ledger_policy: PresenceLedgerPolicy,
    pub available: bool,
}

/// The channel state store kept in Redis for one run of a node: it checks
/// requests against that run and lays out the keys and arguments of each
/// script call.
#[derive(Debug)]
pub struct RedisChannelStore {
    keys: RedisKeys,
    node_lease: NodeLease,
    ledger_policy: PresenceLedgerPolicy,
    available: bool,
}

impl View for RedisChannelStore {
    type V = RedisStoreView;

    closed spec fn view(&self) -> RedisStoreView {
        RedisStoreView {
            namespace: self.keys@,
            instance: self.node_lease@.instance,
            lease: self.node_lease@.token,
            ledger_policy: self.ledger_policy,
            available: self.available,
        }
    }
}

/// The journal limits a store keeps: a journal remembers at least one
/// operation.
pub open spec fn kept_policy(policy: PresenceLedgerPolicy) -> PresenceLedgerPolicy {
    PresenceLedgerPolicy {
        capacity: if policy.capacity == 0 {
            1
        } else {
            policy.capacity
        },
        retention_millis: policy.retention_millis,
    }
}

/// The refusal of a request from a connection of another run, or of any
/// request once the store stopped.
pub open spec fn generation_refusal(store: RedisStoreView, actor_run: (Seq<char>, u128, u64)) -> Option<
    ErrView,
> {
    if !store.available {
        Some((StoreErrorKind::Conflict, "Redis Presence runtime is stopped"@))
    } else if actor_run.0 != store.instance.0 || actor_run.1 != store.instance.1 {
        Some((StoreErrorKind::InvalidRequest, "connection belongs to another node generation"@))
    } else {
        None
    }
}

/// The refusal of a request whose channel lies in another application than
/// its connection, or that the run check refuses.
pub open spec fn actor_refusal(
    store: RedisStoreView,
    channel_application: Seq<char>,
    actor_application: Seq<char>,
    actor_run: (Seq<char>, u128, u64),
) -> Option<ErrView> {
    if channel_application != actor_application {
        Some((StoreErrorKind::InvalidRequest, "channel and connection belong to different applications"@))
    } else {
        generation_refusal(store, actor_run)
    }
}

/// The refusal of an attach: it must be counted individually and have a mode.
pub open spec fn attach_refusal(
    store: RedisStoreView,
    accounting: AttachmentTracking,
    modes: ChannelModes,
    channel_application: Seq<char>,
    actor_application: Seq<char>,
    actor_run: (Seq<char>, u128, u64),
) -> Option<ErrView> {
    if accounting != AttachmentTracking::Individual {
        Some((StoreErrorKind::InvalidRequest, "individual attachment accounting is required"@))
    } else if !(modes.publish || modes.subscribe || modes.presence || modes.presence_subscribe) {
        Some((StoreErrorKind::InvalidRequest, "attachment requires at least one effective mode"@))
    } else {
        actor_refusal(store, channel_application, actor_application, actor_run)
    }
}

/// The outcome of a check: `Ok` exactly when nothing refuses it.
pub open spec fn checked(r: Result<(), ChannelStateStoreError>, refusal: Option<ErrView>) -> bool {
    match (r, refusal) {
        (Ok(()), None) => true,
        (Err(e), Some(v)) => err_view(e) == v,
        _ => false,
    }
}

impl RedisChannelStore {
    /// A store for a lease already taken. The lease must be the node's lease
    /// in this namespace; a journal remembers at least one operation.
    pub fn new(keys: RedisKeys, node_lease: NodeLease, ledger_policy: PresenceLedgerPolicy) -> (r: Result<
        Self,
        NodeLeaseError,
    >)
        ensures
            match r {
                Ok(store) => {
                    &&& node_lease@.token.key == node_lease_key(keys@, node_lease@.instance.0)
                    &&& store@ == (RedisStoreView {
                        namespace: keys@,
                        instance: node_lease@.instance,
                        lease: node_lease@.token,
                        ledger_policy: kept_policy(ledger_policy),
                        available: true,
                    })
                },
                Err(e) => {
                    &&& e is NamespaceMismatch
                    &&& node_lease@.token.key != node_lease_key(keys@, node_lease@.instance.0)
                },
            },
    {
        let expected_key = keys.node_lease(&node_lease.instance().node_id);
        if !same_text(expected_key.as_str(), node_lease.token().key.as_str()) {
            return Err(NodeLeaseError::NamespaceMismatch);
        }
        let capacity = if ledger_policy.capacity == 0 {
            1
        } else {
            ledger_policy.capacity
        };
        Ok(
            RedisChannelStore {
                keys,
                node_lease,
                ledger_policy: PresenceLedgerPolicy {
                    capacity,
                    retention_millis: ledger_policy.retention_millis,
                },
                available: true,
            },
        )
    }

    /// Whether the store still serves requests.
    pub fn is_ready(&self) -> (r: bool)
        ensures
            r == self@.available,
    {
        self.available
    }

    /// The node run this store serves.
    pub fn node_instance(&self) -> (r: &NodeInstance)
        ensures
            r@ == self@.instance,
    {
        self.node_lease.instance()
    }

    /// The key layout of this store.
    pub fn keys(&self) -> (r: &RedisKeys)
        ensures
            r@ == self@.namespace,
    {
        &self.keys
    }

    /// The lease of this store's node run.
    pub fn node_lease(&self) -> (r: &NodeLease)
        ensures
            r@.instance == self@.instance,
            r@.token == self@.lease,
    {
        &self.node_lease
    }

    /// The journal limits of this store.
    pub fn ledger_policy(&self) -> (r: PresenceLedgerPolicy)
        ensures
            r == self@.ledger_policy,
    {
        self.ledger_policy
    }

    /// Stops serving requests; nothing else changes.
    pub fn stop(&mut self)
        ensures
            final(self)@ == (RedisStoreView { available: false, ..old(self)@ }),
    {
        self.available = false;
    }

    /// Checks that the store still serves requests and that the connection
    /// belongs to the node run this store serves.
    pub fn validate_generation(&self, actor: &ConnectionActor) -> (r: Result<(), ChannelStateStoreError>)
        ensures
            checked(r, generation_refusal(self@, actor.node_instance@)),
    {
        if !self.available {
            return Err(ChannelStateStoreError::conflict("Redis Presence runtime is stopped".to_owned()));
        }
        if !self.node_lease.instance().same_generation(&actor.node_instance) {
            return Err(
                ChannelStateStoreError::invalid_request("connection belongs to another node generation"),
            );
        }
        Ok(())
    }

    /// Checks that the channel lies in the connection's application, then the
    /// connection's node run.
    pub fn validate_actor(&self, channel: &ChannelKey, actor: &ConnectionActor) -> (r: Result<
        (),
        ChannelStateStoreError,
    >)
        ensures
            checked(
                r,
                actor_refusal(self@, channel.application_id@, actor.application_id@, actor.node_instance@),
            ),
    {
        if !channel.belongs_to_application(&actor.application_id) {
            return Err(
                ChannelStateStoreError::invalid_request(
                    "channel and connection belong to different applications",
                ),
            );
        }
        self.validate_generation(actor)
    }

    /// Checks an attach: individually counted, with at least one mode, then
    /// its channel and connection.
    pub fn validate_attach(&self, command: &AttachCommand) -> (r: Result<(), ChannelStateStoreError>)
        ensures
            checked(
                r,
                attach_refusal(
                    self@,
                    command.accounting,
                    command.effective_modes,
                    command.channel.application_id@,
                    command.actor.application_id@,
                    command.actor.node_instance@,
                ),
            ),
    {
        if command.accounting != AttachmentTracking::Individual {
            return Err(
                ChannelStateStoreError::invalid_request("individual attachment accounting is required"),
            );
        }
        if command.effective_modes.is_empty() {
            return Err(
                ChannelStateStoreError::invalid_request("attachment requires at least one effective mode"),
            );
        }
        self.validate_actor(&command.channel, &command.actor)
    }
}

/// The keys and arguments of one script call, in the order the script reads
/// them.
#[derive(Debug)]
pub struct ScriptCall {
    pub keys: Vec<String>,
    pub args: Vec<String>,
}

impl View for ScriptCall {
    type V = (Seq<Seq<char>>, Seq<Seq<char>>);

    open spec fn view(&self) -> (Seq<Seq<char>>, Seq<Seq<char>>) {
        (texts_view(self.keys@), texts_view(self.args@))
    }
}

/// Appends a text to a list.
fn push_text(list: &mut Vec<String>, text: String)
    ensures
        texts_view(final(list)@) == texts_view(old(list)@).push(text@),
{
    let ghost before = list@;
    let ghost added = text@;
    list.push(text);
    assert(texts_view(list@) =~= texts_view(before).push(added));
}

/// An empty list of texts.
fn no_texts() -> (r: Vec<String>)
    ensures
        texts_view(r@) == Seq::<Seq<char>>::empty(),
{
    let list: Vec<String> = Vec::new();
    assert(texts_view(list@) =~= Seq::<Seq<char>>::empty());
    list
}

/// The decimal notation of a number.
fn decimal_string(n: u64) -> (r: String)
    ensures
        r@ == decimal(n as nat),
{
    let mut text = String::new();
    push_decimal(&mut text, n);
    assert(text@ =~= decimal(n as nat));
    text
}

/// The identifier of the run a store serves.
pub open spec fn store_run(store: RedisStoreView) -> Seq<char> {
    generation_id(store.instance.0, store.instance.1)
}

/// The keys of a channel script run for one connection: the node lease, the
/// run deadlines, the channel's state, attachments and members, the
/// connection's state, channels and members, the connections of the run and
/// the outbox.
pub open spec fn channel_script_keys(
    store: RedisStoreView,
    channel: (Seq<char>, Seq<char>),
    app: Seq<char>,
    connection: Seq<char>,
    run: (Seq<char>, u128, u64),
) -> Seq<Seq<char>> {
    let ns = store.namespace;
    seq![
        node_lease_key(ns, store.instance.0),
        spec_key(ns, "generation-deadlines"@),
        spec_channel_key(ns, channel, "state"@),
        spec_channel_key(ns, channel, "attachments"@),
        spec_channel_key(ns, channel, "members"@),
        spec_connection_key(ns, app, connection, "state"@),
        spec_connection_key(ns, app, connection, "channels"@),
        spec_connection_key(ns, app, connection, "members"@),
        spec_generation_key(ns, run.0, run.1, "connections"@),
        spec_key(ns, "outbox"@),
    ]
}

/// The arguments of an attach: the node lease token, the run, the encoded
/// application, channel and connection, the channel and attachment JSON and
/// the event identifier.
pub open spec fn attach_args(
    store: RedisStoreView,
    command: AttachCommand,
    channel_json: Seq<char>,
    attachment_json: Seq<char>,
) -> Seq<Seq<char>> {
    seq![
        store.lease.value,
        store_run(store),
        base64_url(command.actor.application_id@),
        base64_url(command.channel.channel@),
        base64_url(command.actor.connection_id@),
        channel_json,
        attachment_json,
        hyphenated_uuid(command.event_id),
    ]
}

/// The arguments of a Presence batch: the node lease token, the run, the
/// encoded application, channel and connection, the channel JSON, the
/// connection, the node run JSON, the items JSON, the serial, the request
/// fingerprint, the event identifier and the journal capacity.
pub open spec fn presence_args(
    store: RedisStoreView,
    command: PresenceBatchCommand,
    channel_json: Seq<char>,
    node_json: Seq<char>,
    items_json: Seq<char>,
) -> Seq<Seq<char>> {
    let actor = command.actor.connection_actor;
    seq![
        store.lease.value,
        store_run(store),
        base64_url(actor.application_id@),
        base64_url(command.channel.channel@),
        base64_url(actor.connection_id@),
        channel_json,
        actor.connection_id@,
        node_json,
        items_json,
        fixed_digits(command.msg_serial as nat, 20),
        command.request_fingerprint@,
        hyphenated_uuid(command.event_id),
        decimal(store.ledger_policy.capacity as nat),
    ]
}

/// The keys of a Presence batch: those of a channel script, then the
/// connection's operations and their order.
pub open spec fn presence_keys(store: RedisStoreView, command: PresenceBatchCommand) -> Seq<Seq<char>> {
    let actor = command.actor.connection_actor;
    channel_script_keys(
        store,
        command.channel@,
        actor.application_id@,
        actor.connection_id@,
        store.instance,
    ) + seq![
        spec_connection_key(store.namespace, actor.application_id@, actor.connection_id@, "operations"@),
        spec_connection_key(store.namespace, actor.application_id@, actor.connection_id@, "operation-order"@),
    ]
}

/// The arguments of a detach: the node lease token, the run, the encoded
/// application, channel and connection, the channel JSON, the connection, the
/// node run JSON and the event identifier.
pub open spec fn detach_args(
    store: RedisStoreView,
    command: DetachCommand,
    channel_json: Seq<char>,
    node_json: Seq<char>,
) -> Seq<Seq<char>> {
    seq![
        store.lease.value,
        store_run(store),
        base64_url(command.actor.application_id@),
        base64_url(command.channel.channel@),
        base64_url(command.actor.connection_id@),
        channel_json,
        command.actor.connection_id@,
        node_json,
        hyphenated_uuid(command.event_id),
    ]
}

/// A checked call: the refusal when there is one, else the call.
pub open spec fn prepared(
    r: Result<ScriptCall, ChannelStateStoreError>,
    refusal: Option<ErrView>,
    call: (Seq<Seq<char>>, Seq<Seq<char>>),
) -> bool {
    match (r, refusal) {
        (Ok(c), None) => c@ == call,
        (Err(e), Some(v)) => err_view(e) == v,
        _ => false,
    }
}

impl RedisChannelStore {
    /// The keys of a channel script for a connection of a node run.
    fn channel_keys(
        &self,
        channel: &ChannelKey,
        actor: &ConnectionActor,
        run: &NodeInstance,
    ) -> (r: Vec<String>)
        ensures
            texts_view(r@) == channel_script_keys(
                self@,
                channel@,
                actor.application_id@,
                actor.connection_id@,
                run@,
            ),
    {
        let app = &actor.application_id;
        let connection = &actor.connection_id;
        let mut keys = no_texts();
        push_text(&mut keys, self.keys.node_lease(&self.node_lease.instance().node_id));
        push_text(&mut keys, self.keys.generation_deadlines());
        push_text(&mut keys, self.keys.channel_state(channel));
        push_text(&mut keys, self.keys.channel_attachments(channel));
        push_text(&mut keys, self.keys.channel_members(channel));
        push_text(&mut keys, self.keys.connection_state(app, connection));
        push_text(&mut keys, self.keys.connection_channels(app, connection));
        push_text(&mut keys, self.keys.connection_members(app, connection));
        push_text(&mut keys, self.keys.generation_connections(run));
        push_text(&mut keys, self.keys.outbox());
        assert(texts_view(keys@) =~= channel_script_keys(
            self@,
            channel@,
            actor.application_id@,
            actor.connection_id@,
            run@,
        ));
        keys
    }

    /// The call that saves an individual attachment and reads the snapshot,
    /// once the attach is checked. `channel_json` and `attachment_json` are
    /// the JSON of the channel and of the attachment.
    pub fn attach_call(&self, command: &AttachCommand, channel_json: &str, attachment_json: &str) -> (r:
        Result<ScriptCall, ChannelStateStoreError>)
        ensures
            prepared(
                r,
                attach_refusal(
                    self@,
                    command.accounting,
                    command.effective_modes,
                    command.channel.application_id@,
                    command.actor.application_id@,
                    command.actor.node_instance@,
                ),
                (
                    channel_script_keys(
                        self@,
                        command.channel@,
                        command.actor.application_id@,
                        command.actor.connection_id@,
                        self@.instance,
                    ),
                    attach_args(self@, *command, channel_json@, attachment_json@),
                ),
            ),
    {
        match self.validate_attach(command) {
            Ok(()) => {},
            Err(e) => {
                return Err(e);
            },
        }
        let keys = self.channel_keys(&command.channel, &command.actor, self.node_lease.instance());
        let mut args = no_texts();
        push_text(&mut args, self.node_lease.token().value.clone());
        push_text(&mut args, generation(self.node_lease.instance()));
        push_text(&mut args, segment(command.actor.application_id.as_str()));
        push_text(&mut args, segment(command.channel.channel.as_str()));
        push_text(&mut args, segment(command.actor.connection_id.as_str()));
        push_text(&mut args, channel_json.to_owned());
        push_text(&mut args, attachment_json.to_owned());
        push_text(&mut args, uuid_text(command.event_id));
        assert(texts_view(args@) =~= attach_args(self@, *command, channel_json@, attachment_json@));
        Ok(ScriptCall { keys, args })
    }

    /// The call that applies a Presence batch, once its channel and connection
    /// are checked. `channel_json`, `node_json` and `items_json` are the JSON
    /// of the channel, of the connection's node run and of the items.
    pub fn presence_call(
        &self,
        command: &PresenceBatchCommand,
        channel_json: &str,
        node_json: &str,
        items_json: &str,
    ) -> (r: Result<ScriptCall, ChannelStateStoreError>)
        ensures
            prepared(
                r,
                actor_refusal(
                    self@,
                    command.channel.application_id@,
                    command.actor.connection_actor.application_id@,
                    command.actor.connection_actor.node_instance@,
                ),
                (
                    presence_keys(self@, *command),
                    presence_args(self@, *command, channel_json@, node_json@, items_json@),
                ),
            ),
    {
        let actor = &command.actor.connection_actor;
        match self.validate_actor(&command.channel, actor) {
            Ok(()) => {},
            Err(e) => {
                return Err(e);
            },
        }
        let mut keys = self.channel_keys(&command.channel, actor, self.node_lease.instance());
        push_text(&mut keys, self.keys.connection_operations(&actor.application_id, &actor.connection_id));
        push_text(
            &mut keys,
            self.keys.connection_operation_order(&actor.application_id, &actor.connection_id),
        );
        assert(texts_view(keys@) =~= presence_keys(self@, *command));
        let mut args = no_texts();
        push_text(&mut args, self.node_lease.token().value.clone());
        push_text(&mut args, generation(self.node_lease.instance()));
        push_text(&mut args, segment(actor.application_id.as_str()));
        push_text(&mut args, segment(command.channel.channel.as_str()));
        push_text(&mut args, segment(actor.connection_id.as_str()));
        push_text(&mut args, channel_json.to_owned());
        push_text(&mut args, actor.connection_id.as_str().to_owned());
        push_text(&mut args, node_json.to_owned());
        push_text(&mut args, items_json.to_owned());
        push_text(&mut args, operation_serial(command.msg_serial));
        push_text(&mut args, command.request_fingerprint.clone());
        push_text(&mut args, uuid_text(command.event_id));
        push_text(&mut args, decimal_string(self.ledger_policy.capacity as u64));
        assert(texts_view(args@) =~= presence_args(self@, *command, channel_json@, node_json@, items_json@));
        Ok(ScriptCall { keys, args })
    }

    /// The call that removes an attachment and its Presence members, once its
    /// channel and connection are checked. `channel_json` and `node_json` are
    /// the JSON of the channel and of the connection's node run.
    pub fn detach_call(&self, command: &DetachCommand, channel_json: &str, node_json: &str) -> (r: Result<
        ScriptCall,
        ChannelStateStoreError,
    >)
        ensures
            prepared(
                r,
                actor_refusal(
                    self@,
                    command.channel.application_id@,
                    command.actor.application_id@,
                    command.actor.node_instance@,
                ),
                (
                    channel_script_keys(
                        self@,
                        command.channel@,
                        command.actor.application_id@,
                        command.actor.connection_id@,
                        self@.instance,
                    ),
                    detach_args(self@, *command, channel_json@, node_json@),
                ),
            ),
    {
        match self.validate_actor(&command.channel, &command.actor) {
            Ok(()) => {},
            Err(e) => {
                return Err(e);
            },
        }
        let keys = self.channel_keys(&command.channel, &command.actor, self.node_lease.instance());
        let mut args = no_texts();
        push_text(&mut args, self.node_lease.token().value.clone());
        push_text(&mut args, generation(self.node_lease.instance()));
        push_text(&mut args, segment(command.actor.application_id.as_str()));
        push_text(&mut args, segment(command.channel.channel.as_str()));
        push_text(&mut args, segment(command.actor.connection_id.as_str()));
        push_text(&mut args, channel_json.to_owned());
        push_text(&mut args, command.actor.connection_id.as_str().to_owned());
        push_text(&mut args, node_json.to_owned());
        push_text(&mut args, uuid_text(command.event_id));
        assert(texts_view(args@) =~= detach_args(self@, *command, channel_json@, node_json@));
        Ok(ScriptCall { keys, args })
    }
}

/// The key of the cleanup lease of a node run.
pub open spec fn cleanup_lease_key(namespace: Seq<char>, target: (Seq<char>, u128, u64)) -> Seq<char> {
    spec_key(namespace, "lease.cleanup."@ + generation_id(target.0, target.1))
}

/// The refusal of a cleanup token that does not lease the connection's run
/// or that another run holds.
pub open spec fn cleanup_token_refusal(
    store: RedisStoreView,
    target: (Seq<char>, u128, u64),
    token: LeaseView,
) -> Option<ErrView> {
    if token.key != cleanup_lease_key(store.namespace, target) || token.owner != store_run(store) {
        Some(
            (
                StoreErrorKind::InvalidRequest,
                "cleanup token must target the requested generation and belong to this reaper"@,
            ),
        )
    } else {
        None
    }
}

/// One channel of a disconnect as its script needs it: the encoded name, the
/// channel and the identifier of its detach event.
#[derive(Debug)]
pub struct DisconnectChannel {
    pub segment: String,
    pub channel: ChannelKey,
    pub event_id: u128,
}

/// The state, attachments and members keys of each channel, in order.
pub open spec fn channel_triples(namespace: Seq<char>, channels: Seq<(Seq<char>, Seq<char>)>) -> Seq<
    Seq<char>,
>
    decreases channels.len(),
{
    if channels.len() == 0 {
        Seq::empty()
    } else {
        let last = channels.last();
        channel_triples(namespace, channels.drop_last()) + seq![
            spec_channel_key(namespace, last, "state"@),
            spec_channel_key(namespace, last, "attachments"@),
            spec_channel_key(namespace, last, "members"@),
        ]
    }
}

/// The channels of a disconnect list.
pub open spec fn listed_channels(channels: Seq<DisconnectChannel>) -> Seq<(Seq<char>, Seq<char>)> {
    channels.map_values(|c: DisconnectChannel| c.channel@)
}

/// The keys of a disconnect or of the cleanup of one connection: the node
/// lease, the run deadlines, the connection's state, channels and members,
/// the connections of its run, the outbox, the connection's operation order
/// and operations; for a cleanup, the cleanup lease and the lease of the
/// connection's node; then the keys of each channel.
pub open spec fn close_keys(
    store: RedisStoreView,
    command: DisconnectConnectionCommand,
    cleanup: Option<LeaseView>,
    channels: Seq<(Seq<char>, Seq<char>)>,
) -> Seq<Seq<char>> {
    let ns = store.namespace;
    let app = command.actor.application_id@;
    let connection = command.actor.connection_id@;
    let run = command.actor.node_instance@;
    let base = seq![
        node_lease_key(ns, store.instance.0),
        spec_key(ns, "generation-deadlines"@),
        spec_connection_key(ns, app, connection, "state"@),
        spec_connection_key(ns, app, connection, "channels"@),
        spec_connection_key(ns, app, connection, "members"@),
        spec_generation_key(ns, run.0, run.1, "connections"@),
        spec_key(ns, "outbox"@),
        spec_connection_key(ns, app, connection, "operation-order"@),
        spec_connection_key(ns, app, connection, "operations"@),
    ];
    let leased = match cleanup {
        Some(token) => base + seq![token.key, node_lease_key(ns, run.0)],
        None => base,
    };
    leased + channel_triples(ns, channels)
}

/// The arguments of a disconnect or of a cleanup: the node lease token, the
/// connection's run, its encoded application and connection, the connection,
/// the node run JSON, the journal retention and the channels JSON; for a
/// cleanup, the store's run and the cleanup token.
pub open spec fn close_args(
    store: RedisStoreView,
    command: DisconnectConnectionCommand,
    cleanup: Option<LeaseView>,
    node_json: Seq<char>,
    channels_json: Seq<char>,
) -> Seq<Seq<char>> {
    let run = command.actor.node_instance@;
    let base = seq![
        store.lease.value,
        generation_id(run.0, run.1),
        base64_url(command.actor.application_id@),
        base64_url(command.actor.connection_id@),
        command.actor.connection_id@,
        node_json,
        decimal(store.ledger_policy.retention_millis as nat),
        channels_json,
    ];
    match cleanup {
        Some(token) => base + seq![store_run(store), token.value],
        None => base,
    }
}

/// The channels a disconnect reply asks for, in the connection's application,
/// each with its encoded name and its detach event identifier.
pub fn disconnect_channels(command: &DisconnectConnectionCommand, names: &Vec<String>) -> (r: Vec<
    DisconnectChannel,
>)
    ensures
        r@.len() == names@.len(),
        forall|k: int|
            0 <= k < names@.len() ==> {
                &&& (#[trigger] r@[k]).channel@ == (command.actor.application_id@, names@[k]@)
                &&& r@[k].segment@ == base64_url(names@[k]@)
                &&& r@[k].event_id == command.spec_channel_event_id(names@[k]@)
            },
{
    let mut channels: Vec<DisconnectChannel> = Vec::new();
    let mut k: usize = 0;
    while k < names.len()
        invariant
            k <= names@.len(),
            channels@.len() == k,
            forall|j: int|
                0 <= j < k ==> {
                    &&& (#[trigger] channels@[j]).channel@ == (command.actor.application_id@, names@[j]@)
                    &&& channels@[j].segment@ == base64_url(names@[j]@)
                    &&& channels@[j].event_id == command.spec_channel_event_id(names@[j]@)
                },
        decreases names@.len() - k,
    {
        let name = names[k].as_str();
        let channel = ChannelKey::new(command.actor.application_id.clone(), name);
        let event_id = command.channel_event_id(&channel);
        channels.push(DisconnectChannel { segment: segment(name), channel, event_id });
        k = k + 1;
    }
    channels
}

impl RedisChannelStore {
    /// Checks a cleanup token: it must lease the run of the connection to
    /// clean up, and belong to the run this store serves.
    pub fn validate_cleanup_token(&self, command: &DisconnectConnectionCommand, token: &HeldLease) -> (r:
        Result<(), ChannelStateStoreError>)
        ensures
            checked(r, cleanup_token_refusal(self@, command.actor.node_instance@, token@)),
    {
        let expected = self.keys.cleanup_lease(&command.actor.node_instance);
        let owner = generation(self.node_lease.instance());
        if !same_text(token.key.as_str(), expected.as_str()) || !same_text(
            token.owner.as_str(),
            owner.as_str(),
        ) {
            return Err(
                ChannelStateStoreError::invalid_request(
                    "cleanup token must target the requested generation and belong to this reaper",
                ),
            );
        }
        Ok(())
    }

    /// The call that removes a connection from the given channels: a
    /// disconnect, or with a cleanup token the cleanup of a connection of an
    /// expired run. `node_json` is the JSON of the connection's node run and
    /// `channels_json` that of the channels (`[]` before the reply names
    /// them).
    pub fn close_connection_call(
        &self,
        command: &DisconnectConnectionCommand,
        cleanup: Option<&HeldLease>,
        node_json: &str,
        channels: &Vec<DisconnectChannel>,
        channels_json: &str,
    ) -> (r: ScriptCall)
        ensures
            r@ == (
                close_keys(
                    self@,
                    *command,
                    match cleanup {
                        Some(t) => Some(t@),
                        None => None,
                    },
                    listed_channels(channels@),
                ),
                close_args(
                    self@,
                    *command,
                    match cleanup {
                        Some(t) => Some(t@),
                        None => None,
                    },
                    node_json@,
                    channels_json@,
                ),
            ),
    {
        let ghost lease = match cleanup {
            Some(t) => Some(t@),
            None => None,
        };
        let app = &command.actor.application_id;
        let connection = &command.actor.connection_id;
        let run = &command.actor.node_instance;
        let mut keys = no_texts();
        push_text(&mut keys, self.keys.node_lease(&self.node_lease.instance().node_id));
        push_text(&mut keys, self.keys.generation_deadlines());
        push_text(&mut keys, self.keys.connection_state(app, connection));
        push_text(&mut keys, self.keys.connection_channels(app, connection));
        push_text(&mut keys, self.keys.connection_members(app, connection));
        push_text(&mut keys, self.keys.generation_connections(run));
        push_text(&mut keys, self.keys.outbox());
        push_text(&mut keys, self.keys.connection_operation_order(app, connection));
        push_text(&mut keys, self.keys.connection_operations(app, connection));
        let mut args = no_texts();
        push_text(&mut args, self.node_lease.token().value.clone());
        push_text(&mut args, generation(run));
        push_text(&mut args, segment(app.as_str()));
        push_text(&mut args, segment(connection.as_str()));
        push_text(&mut args, connection.as_str().to_owned());
        push_text(&mut args, node_json.to_owned());
        push_text(&mut args, decimal_string(self.ledger_policy.retention_millis));
        push_text(&mut args, channels_json.to_owned());
        match cleanup {
            Some(token) => {
                push_text(&mut keys, token.key.clone());
                push_text(&mut keys, self.keys.node_lease(&run.node_id));
                push_text(&mut args, generation(self.node_lease.instance()));
                push_text(&mut args, token.value.clone());
            },
            None => {},
        }
        let ghost ns = self@.namespace;
        let ghost listed = listed_channels(channels@);
        let ghost fixed = texts_view(keys@);
        proof {
            assert(fixed + channel_triples(ns, listed.take(0)) =~= fixed);
        }
        let mut k: usize = 0;
        while k < channels.len()
            invariant
                k <= channels@.len(),
                ns == self@.namespace,
                listed == listed_channels(channels@),
                texts_view(keys@) == fixed + channel_triples(ns, listed.take(k as int)),
            decreases channels@.len() - k,
        {
            let channel = &channels[k].channel;
            push_text(&mut keys, self.keys.channel_state(channel));
            push_text(&mut keys, self.keys.channel_attachments(channel));
            push_text(&mut keys, self.keys.channel_members(channel));
            proof {
                let next = listed.take(k + 1);
                assert(next.drop_last() =~= listed.take(k as int));
                assert(next.last() == channel@);
                assert(texts_view(keys@) =~= fixed + channel_triples(ns, next));
            }
            k = k + 1;
        }
        proof {
            assert(listed.take(channels@.len() as int) =~= listed);
            assert(texts_view(keys@) =~= close_keys(self@, *command, lease, listed));
            assert(texts_view(args@) =~= close_args(self@, *command, lease, node_json@, channels_json@));
        }
        ScriptCall { keys, args }
    }
}

/// The refusal of a cleanup token that does not lease the target run or that
/// another run holds, or of an empty batch.
pub open spec fn reap_refusal(
    store: RedisStoreView,
    target: (Seq<char>, u128, u64),
    token: LeaseView,
    limit: u32,
) -> Option<ErrView> {
    if token.key != cleanup_lease_key(store.namespace, target) || token.owner != store_run(store)
        || limit == 0 {
        Some((StoreErrorKind::InvalidRequest, "invalid generation cleanup token or batch size"@))
    } else {
        None
    }
}

/// The keys of a run cleanup batch: the store's node lease, the run
/// deadlines, the cleanup lease, the target node's lease, the target run's
/// connections and shards, and the runs.
pub open spec fn reap_keys(
    store: RedisStoreView,
    target: (Seq<char>, u128, u64),
    token: LeaseView,
) -> Seq<Seq<char>> {
    let ns = store.namespace;
    seq![
        node_lease_key(ns, store.instance.0),
        spec_key(ns, "generation-deadlines"@),
        token.key,
        node_lease_key(ns, target.0),
        spec_generation_key(ns, target.0, target.1, "connections"@),
        spec_generation_key(ns, target.0, target.1, "shards"@),
        spec_key(ns, "generations"@),
    ]
}

/// The arguments of a run cleanup batch: the node lease token, the store's
/// run, the cleanup token, the target run and the batch size.
pub open spec fn reap_args(
    store: RedisStoreView,
    target: (Seq<char>, u128, u64),
    token: LeaseView,
    limit: u32,
) -> Seq<Seq<char>> {
    seq![
        store.lease.value,
        store_run(store),
        token.value,
        generation_id(target.0, target.1),
        decimal(limit as nat),
    ]
}

/// The refusal of a publisher token that does not lease the outbox or that
/// another run holds.
pub open spec fn publisher_refusal(store: RedisStoreView, token: LeaseView) -> Option<ErrView> {
    if token.key != spec_key(store.namespace, "lease.publisher"@) || token.owner != store_run(store) {
        Some((StoreErrorKind::InvalidRequest, "invalid outbox publisher token"@))
    } else {
        None
    }
}

/// The keys of an outbox call: the node lease, the run deadlines, the
/// publisher lease and the outbox.
pub open spec fn outbox_keys(store: RedisStoreView) -> Seq<Seq<char>> {
    let ns = store.namespace;
    seq![
        node_lease_key(ns, store.instance.0),
        spec_key(ns, "generation-deadlines"@),
        spec_key(ns, "lease.publisher"@),
        spec_key(ns, "outbox"@),
    ]
}

/// The arguments of an outbox call: the node lease token, the run, the
/// publisher token, the operation and its value.
pub open spec fn outbox_args(
    store: RedisStoreView,
    token: LeaseView,
    operation: Seq<char>,
    value: Seq<char>,
) -> Seq<Seq<char>> {
    seq![store.lease.value, store_run(store), token.value, operation, value]
}

impl RedisChannelStore {
    /// The call that cleans up one batch of connections of an expired run,
    /// once the cleanup token and the batch size are checked.
    pub fn reap_generation_call(&self, target: &NodeInstance, token: &HeldLease, limit: u32) -> (r: Result<
        ScriptCall,
        ChannelStateStoreError,
    >)
        ensures
            prepared(
                r,
                reap_refusal(self@, target@, token@, limit),
                (reap_keys(self@, target@, token@), reap_args(self@, target@, token@, limit)),
            ),
    {
        let expected = self.keys.cleanup_lease(target);
        let owner = generation(self.node_lease.instance());
        if !same_text(token.key.as_str(), expected.as_str()) || !same_text(
            token.owner.as_str(),
            owner.as_str(),
        ) || limit == 0 {
            return Err(
                ChannelStateStoreError::invalid_request("invalid generation cleanup token or batch size"),
            );
        }
        let mut keys = no_texts();
        push_text(&mut keys, self.keys.node_lease(&self.node_lease.instance().node_id));
        push_text(&mut keys, self.keys.generation_deadlines());
        push_text(&mut keys, token.key.clone());
        push_text(&mut keys, self.keys.node_lease(&target.node_id));
        push_text(&mut keys, self.keys.generation_connections(target));
        push_text(&mut keys, self.keys.generation_shards(target));
        push_text(&mut keys, self.keys.generations());
        let mut args = no_texts();
        push_text(&mut args, self.node_lease.token().value.clone());
        push_text(&mut args, owner);
        push_text(&mut args, token.value.clone());
        push_text(&mut args, generation(target));
        push_text(&mut args, decimal_string(limit as u64));
        proof {
            assert(texts_view(keys@) =~= reap_keys(self@, target@, token@));
            assert(texts_view(args@) =~= reap_args(self@, target@, token@, limit));
        }
        Ok(ScriptCall { keys, args })
    }

    /// The call that reads or acknowledges outbox entries, once the publisher
    /// token is checked.
    pub fn outbox_call(&self, token: &HeldLease, operation: &str, value: &str) -> (r: Result<
        ScriptCall,
        ChannelStateStoreError,
    >)
        ensures
            prepared(
                r,
                publisher_refusal(self@, token@),
                (outbox_keys(self@), outbox_args(self@, token@, operation@, value@)),
            ),
    {
        let expected = self.keys.publisher_lease();
        let owner = generation(self.node_lease.instance());
        if !same_text(token.key.as_str(), expected.as_str()) || !same_text(
            token.owner.as_str(),
            owner.as_str(),
        ) {
            return Err(ChannelStateStoreError::invalid_request("invalid outbox publisher token"));
        }
        let mut keys = no_texts();
        push_text(&mut keys, self.keys.node_lease(&self.node_lease.instance().node_id));
        push_text(&mut keys, self.keys.generation_deadlines());
        push_text(&mut keys, expected);
        push_text(&mut keys, self.keys.outbox());
        let mut args = no_texts();
        push_text(&mut args, self.node_lease.token().value.clone());
        push_text(&mut args, owner);
        push_text(&mut args, token.value.clone());
        push_text(&mut args, operation.to_owned());
        push_text(&mut args, value.to_owned());
        proof {
            assert(texts_view(keys@) =~= outbox_keys(self@));
            assert(texts_view(args@) =~= outbox_args(self@, token@, operation@, value@));
        }
        Ok(ScriptCall { keys, args })
    }

    /// The call that lists up to `limit` expired runs, earliest deadline
    /// first: the run deadlines and the runs, with the limit.
    pub fn expired_generations_call(&self, limit: u32) -> (r: ScriptCall)
        ensures
            r@ == (
                seq![
                    spec_key(self@.namespace, "generation-deadlines"@),
                    spec_key(self@.namespace, "generations"@),
                ],
                seq![decimal(limit as nat)],
            ),
    {
        let mut keys = no_texts();
        push_text(&mut keys, self.keys.generation_deadlines());
        push_text(&mut keys, self.keys.generations());
        let mut args = no_texts();
        push_text(&mut args, decimal_string(limit as u64));
        proof {
            assert(texts_view(keys@) =~= seq![
                spec_key(self@.namespace, "generation-deadlines"@),
                spec_key(self@.namespace, "generations"@),
            ]);
            assert(texts_view(args@) =~= seq![decimal(limit as nat)]);
        }
        ScriptCall { keys, args }
    }

    /// The call that reads a channel's members, versions and counters: its
    /// state, members, attachments and shards, with no arguments.
    pub fn snapshot_call(&self, channel: &ChannelKey) -> (r: ScriptCall)
        ensures
            r@ == (
                seq![
                    spec_channel_key(self@.namespace, channel@, "state"@),
                    spec_channel_key(self@.namespace, channel@, "members"@),
                    spec_channel_key(self@.namespace, channel@, "attachments"@),
                    spec_channel_key(self@.namespace, channel@, "shards"@),
                ],
                Seq::<Seq<char>>::empty(),
            ),
    {
        let mut keys = no_texts();
        push_text(&mut keys, self.keys.channel_state(channel));
        push_text(&mut keys, self.keys.channel_members(channel));
        push_text(&mut keys, self.keys.channel_attachments(channel));
        push_text(&mut keys, self.keys.channel_shards(channel));
        proof {
            assert(texts_view(keys@) =~= seq![
                spec_channel_key(self@.namespace, channel@, "state"@),
                spec_channel_key(self@.namespace, channel@, "members"@),
                spec_channel_key(self@.namespace, channel@, "attachments"@),
                spec_channel_key(self@.namespace, channel@, "shards"@),
            ]);
        }
        ScriptCall { keys, args: no_texts() }
    }
}

impl NodeLease {
    /// The call that renews this lease and its run's deadline: the lease and
    /// the run deadlines, with the token, the time to live in milliseconds
    /// and the run. The lease must be the node's lease in this namespace.
    pub fn renew_call(&self, keys: &RedisKeys, ttl_millis: u64) -> (r: Result<ScriptCall, NodeLeaseError>)
        ensures
            match r {
                Ok(call) => {
                    &&& self@.token.key == node_lease_key(keys@, self@.instance.0)
                    &&& call@ == (
                        seq![self@.token.key, spec_key(keys@, "generation-deadlines"@)],
                        seq![
                            self@.token.value,
                            decimal(ttl_millis as nat),
                            generation_id(self@.instance.0, self@.instance.1),
                        ],
                    )
                },
                Err(e) => e is NamespaceMismatch && self@.token.key != node_lease_key(
                    keys@,
                    self@.instance.0,
                ),
            },
    {
        let lease_key = keys.node_lease(&self.instance.node_id);
        if !same_text(lease_key.as_str(), self.token.key.as_str()) {
            return Err(NodeLeaseError::NamespaceMismatch);
        }
        let mut call_keys = no_texts();
        push_text(&mut call_keys, lease_key);
        push_text(&mut call_keys, keys.generation_deadlines());
        let mut args = no_texts();
        push_text(&mut args, self.token.value.clone());
        push_text(&mut args, decimal_string(ttl_millis));
        push_text(&mut args, generation(&self.instance));
        proof {
            assert(texts_view(call_keys@) =~= seq![self@.token.key, spec_key(keys@, "generation-deadlines"@)]);
            assert(texts_view(args@) =~= seq![
                self@.token.value,
                decimal(ttl_millis as nat),
                generation_id(self@.instance.0, self@.instance.1),
            ]);
        }
        Ok(ScriptCall { keys: call_keys, args })
    }
}

/// The call that takes a node's lease and registers its run: the lease, its
/// fencing counter, the runs and the run deadlines, with the owner, the time
/// to live in milliseconds, the run and the run's metadata JSON.
pub fn claim_call(
    keys: &RedisKeys,
    instance: &NodeInstance,
    fence_key: &str,
    owner_value: &str,
    ttl_millis: u64,
    metadata_json: &str,
) -> (r: ScriptCall)
    ensures
        r@ == (
            seq![
                node_lease_key(keys@, instance.node_id@),
                fence_key@,
                spec_key(keys@, "generations"@),
                spec_key(keys@, "generation-deadlines"@),
            ],
            seq![
                owner_value@,
                decimal(ttl_millis as nat),
                generation_id(instance.node_id@, instance.boot_generation),
                metadata_json@,
            ],
        ),
{
    let mut call_keys = no_texts();
    push_text(&mut call_keys, keys.node_lease(&instance.node_id));
    push_text(&mut call_keys, fence_key.to_owned());
    push_text(&mut call_keys, keys.generations());
    push_text(&mut call_keys, keys.generation_deadlines());
    let mut args = no_texts();
    push_text(&mut args, owner_value.to_owned());
    push_text(&mut args, decimal_string(ttl_millis));
    push_text(&mut args, generation(instance));
    push_text(&mut args, metadata_json.to_owned());
    proof {
        assert(texts_view(call_keys@) =~= seq![
            node_lease_key(keys@, instance.node_id@),
            fence_key@,
            spec_key(keys@, "generations"@),
            spec_key(keys@, "generation-deadlines"@),
        ]);
        assert(texts_view(args@) =~= seq![
            owner_value@,
            decimal(ttl_millis as nat),
            generation_id(instance.node_id@, instance.boot_generation),
            metadata_json@,
        ]);
    }
    ScriptCall { keys: call_keys, args }
}

/// One item of a Presence batch as its script needs it. The script applies
/// refusals by client identifier itself, in item order, after looking for a
/// replay and checking the attachment.
#[derive(Debug)]
pub struct PresenceItemFrame {
    pub action: PresenceMutationAction,
    pub client_id: Option<String>,
    /// The encoded client identifier.
    pub client_segment: Option<String>,
    /// Whether the connection may act for the client.
    pub allowed: bool,
    pub has_data: bool,
    /// The message identifier the member would carry.
    pub last_message_id: String,
}

/// The frame of item `index` of a batch.
pub open spec fn item_frame_matches(frame: PresenceItemFrame, command: PresenceBatchCommand, index: int) -> bool {
    let item = command.items@[index];
    &&& frame.action == item.action
    &&& frame.has_data == (item.data is Some)
    &&& frame.last_message_id@ == client_message_id(
        command.actor.connection_actor.connection_id@,
        command.msg_serial,
        index as nat,
    )
    &&& match item.client_id {
        Some(id) => {
            &&& frame.client_id matches Some(f) && f@ == id@
            &&& frame.client_segment matches Some(g) && g@ == base64_url(id@)
            &&& frame.allowed == command.actor.client_id_policy@.permits(id@)
        },
        None => frame.client_id is None && frame.client_segment is None && !frame.allowed,
    }
}

/// The items of a batch as its script needs them, in order.
pub fn presence_item_frames(command: &PresenceBatchCommand) -> (r: Vec<PresenceItemFrame>)
    ensures
        r@.len() == command.items@.len(),
        forall|k: int| 0 <= k < r@.len() ==> item_frame_matches(#[trigger] r@[k], *command, k),
{
    let mut frames: Vec<PresenceItemFrame> = Vec::new();
    let mut k: usize = 0;
    while k < command.items.len()
        invariant
            k <= command.items@.len(),
            frames@.len() == k,
            forall|j: int| 0 <= j < k ==> item_frame_matches(#[trigger] frames@[j], *command, j),
        decreases command.items@.len() - k,
    {
        let item = &command.items[k];
        let (client_id, client_segment, allowed) = match &item.client_id {
            Some(id) => (
                Some(id.clone()),
                Some(segment(id.as_str())),
                command.actor.client_id_policy.allows(id.as_str()),
            ),
            None => (None, None, false),
        };
        frames.push(
            PresenceItemFrame {
                action: item.action,
                client_id,
                client_segment,
                allowed,
                has_data: item.data.is_some(),
                last_message_id: command.message_id(k),
            },
        );
        k = k + 1;
    }
    frames
}

/// Whether the cleanup of a run continues after a batch: it continues after
/// a finished batch or a conflict (another reaper or a live run), and stops
/// on any other error.
pub fn reap_outcome_tolerated(outcome: &Result<bool, ChannelStateStoreError>) -> (r: bool)
    ensures
        r == match outcome {
            Ok(_) => true,
            Err(e) => e.kind_of() == StoreErrorKind::Conflict,
        },
{
    match outcome {
        Ok(_) => true,
        Err(e) => e.kind() == StoreErrorKind::Conflict,
    }
}

} // verus!

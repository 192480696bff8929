use vstd::prelude::*;

use crate::channel::{
    spec_apply_presence_batch, attachment_slot, connection_members, err_view, removes_on_save, spec_detach,
    spec_save_attachment, ChannelState, ChannelStateView, ErrView, IndividualDetachOutcome,
};
use crate::commands::{
    AttachCommand, AttachOutcomeView, ChannelAttachOutcome, DetachCommand,
    DisconnectConnectionCommand, PresenceBatchCommand, PresenceLedgerPolicy,
};
use crate::error::{ChannelStateStoreError, StoreErrorKind};
use crate::ids::{ChannelKey, ConnectionActor, ConnectionId, ConnectionKey, Timestamp};
use crate::ledger::{
    record_slot, LedgerLookup, LedgerView, LookupView, PresenceOperationLedger, PresenceOperationRecord,
    RecordView,
};
use crate::outcomes::server_event;
use crate::protocol::{
    members_view, AttachmentTracking, OccupancyChange, PresenceRejection, PresenceSnapshot,
    RejectionView,
};
use crate::sorting::{
    by_client, lemma_by_client, lemma_strictly_sorted_unique, name_key, sort_by_name, strictly_sorted,
};
use crate::table::{
    keyed, lemma_keyed_absent, lemma_keyed_index, lemma_keyed_len, lemma_keyed_push, lemma_keyed_remove,
    lemma_keyed_update,
};
use crate::text::{
    lemma_text_lt_asymmetric, lemma_text_lt_total, lemma_text_lt_transitive, push_str, text_lt,
};
use crate::transition::{
    CommittedChannelTransition, OutcomeView, PresenceMutationOutcome, PresenceMutationReceipt,
    ReceiptView, TransitionView,
};

verus! {

/// A channel as the pair of its application and name.
pub type ChannelName = (Seq<char>, Seq<char>);

/// A connection as the pair of its application and identifier.
pub type ConnectionName = (Seq<char>, Seq<char>);

/// Mathematical content of the local store.
pub struct StoreView {
    pub ledger_policy: PresenceLedgerPolicy,
    /// The state of each channel that has been attached to.
    pub channels: Map<ChannelName, ChannelStateView>,
    /// The channels each connection is attached to; never an empty set.
    pub connection_channels: Map<ConnectionName, Set<ChannelName>>,
    /// The journal of processed Presence commands of each connection.
    pub ledgers: Map<ConnectionName, LedgerView>,
}

impl StoreView {
    /// The store before any operation.
    pub open spec fn initial(ledger_policy: PresenceLedgerPolicy) -> Self {
        StoreView {
            ledger_policy,
            channels: Map::empty(),
            connection_channels: Map::empty(),
            ledgers: Map::empty(),
        }
    }

    /// The state of a channel; one never attached to is empty.
    pub open spec fn channel(self, name: ChannelName) -> ChannelStateView {
        if self.channels.contains_key(name) {
            self.channels[name]
        } else {
            ChannelStateView::empty()
        }
    }

    /// The channels a connection is attached to.
    pub open spec fn channels_of(self, connection: ConnectionName) -> Set<ChannelName> {
        if self.connection_channels.contains_key(connection) {
            self.connection_channels[connection]
        } else {
            Set::empty()
        }
    }

    /// The connection has been disconnected and its journal is still kept.
    pub open spec fn is_closed(self, connection: ConnectionName) -> bool {
        self.ledgers.contains_key(connection) && self.ledgers[connection].is_closed()
    }

    /// The store with `channel` added to the channels of `connection`.
    pub open spec fn with_link(self, connection: ConnectionName, channel: ChannelName) -> Self {
        StoreView {
            connection_channels: self.connection_channels.insert(
                connection,
                self.channels_of(connection).insert(channel),
            ),
            ..self
        }
    }

    /// The store with `channel` removed from the channels of `connection`; a
    /// connection left without channels leaves the index.
    pub open spec fn without_link(self, connection: ConnectionName, channel: ChannelName) -> Self {
        if !self.connection_channels.contains_key(connection) {
            self
        } else {
            let rest = self.connection_channels[connection].remove(channel);
            StoreView {
                connection_channels: if rest.is_empty() {
                    self.connection_channels.remove(connection)
                } else {
                    self.connection_channels.insert(connection, rest)
                },
                ..self
            }
        }
    }

    /// The invariant of the store.
    pub open spec fn wf(self) -> bool {
        &&& forall|k: ChannelName| #[trigger]
            self.channels.contains_key(k) ==> self.channels[k].wf()
        &&& forall|c: ConnectionName| #[trigger]
            self.connection_channels.contains_key(c) ==> {
                &&& self.connection_channels[c].finite()
                &&& !self.connection_channels[c].is_empty()
                &&& forall|k: ChannelName| #[trigger]
                    self.connection_channels[c].contains(k) ==> k.0 == c.0
            }
        &&& forall|c: ConnectionName| #[trigger]
            self.ledgers.contains_key(c) ==> self.ledgers[c].wf()
    }
}

/// Message of the refusal of a channel and connection from different applications.
pub open spec fn different_applications_message() -> Seq<char> {
    "channel and connection belong to different applications"@
}

/// Message of the refusal of an aggregated attachment.
pub open spec fn individual_required_message() -> Seq<char> {
    "individual attachment accounting is required"@
}

/// Message of the refusal to attach a disconnected connection.
pub open spec fn closed_connection_message(connection: Seq<char>) -> Seq<char> {
    "connection "@ + connection + " is closed and cannot attach"@
}

/// The connection of an actor.
pub open spec fn connection_name(actor: &ConnectionActor) -> ConnectionName {
    (actor.application_id@, actor.connection_id@)
}

/// The transition of a successful save of `command`'s attachment, from the
/// channel's state `s` before it to `n` after it.
pub open spec fn attach_transition(
    s: ChannelStateView,
    n: ChannelStateView,
    command: &AttachCommand,
) -> TransitionView {
    let removes = removes_on_save(s, command.spec_attachment());
    match OccupancyChange::spec_between(s.occupancy(), n.occupancy()) {
        None => TransitionView::Unchanged { occupancy_version: n.occupancy_version },
        Some(occupancy) => TransitionView::Changed(
            server_event(
                command.event_id,
                command.channel@,
                command.actor.node_instance@,
                if removes {
                    Some(n.presence_revision)
                } else {
                    None
                },
                n.occupancy_version,
                if removes {
                    by_client(connection_members(s.members, command.actor.connection_id@))
                } else {
                    Seq::empty()
                },
                occupancy,
                command.request_time,
            ),
        ),
    }
}

/// Attaching: the refusal, or the store and outcome after it.
pub open spec fn spec_attach(s: StoreView, command: &AttachCommand) -> Result<
    (StoreView, AttachOutcomeView),
    ErrView,
> {
    let channel = command.channel@;
    let connection = connection_name(&command.actor);
    if command.accounting != AttachmentTracking::Individual {
        Err((StoreErrorKind::InvalidRequest, individual_required_message()))
    } else if command.channel.application_id@ != command.actor.application_id@ {
        Err((StoreErrorKind::InvalidRequest, different_applications_message()))
    } else if s.is_closed(connection) {
        Err((StoreErrorKind::Conflict, closed_connection_message(command.actor.connection_id@)))
    } else {
        match spec_save_attachment(s.channel(channel), command.spec_attachment()) {
            Err(e) => Err(e),
            Ok(n) => Ok(
                (
                    StoreView { channels: s.channels.insert(channel, n), ..s }.with_link(
                        connection,
                        channel,
                    ),
                    AttachOutcomeView {
                        attachment: command.spec_attachment(),
                        snapshot: n.snapshot(),
                        transition: attach_transition(s.channel(channel), n, command),
                    },
                ),
            ),
        }
    }
}

/// The names of channel keys.
pub open spec fn channel_names(keys: Seq<ChannelKey>) -> Seq<ChannelName> {
    keys.map_values(|k: ChannelKey| k@)
}

/// The names of connection keys.
pub open spec fn connection_names(keys: Seq<ConnectionKey>) -> Seq<ConnectionName> {
    keys.map_values(|k: ConnectionKey| k@)
}

spec fn state_views(states: Seq<ChannelState>) -> Seq<ChannelStateView> {
    states.map_values(|c: ChannelState| c@)
}

spec fn channel_sets(lists: Seq<Vec<ChannelKey>>) -> Seq<Set<ChannelName>> {
    lists.map_values(|v: Vec<ChannelKey>| channel_names(v@).to_set())
}

spec fn ledger_views(ledgers: Seq<PresenceOperationLedger>) -> Seq<LedgerView> {
    ledgers.map_values(|l: PresenceOperationLedger| l@)
}

/// The state of the local channel store.
#[derive(Debug)]
pub struct MemoryStoreState {
    /// The limits of the journals of Presence operations.
    ledger_policy: PresenceLedgerPolicy,
    /// Channels that have been attached to, and their states.
    channel_keys: Vec<ChannelKey>,
    channel_states: Vec<ChannelState>,
    /// Connections with attachments, and the channels of each.
    connection_keys: Vec<ConnectionKey>,
    connection_channels: Vec<Vec<ChannelKey>>,
    /// Connections with a journal, and their journals. A journal is closed on
    /// disconnect and removed by `sweep_presence_ledgers` after retention.
    ledger_keys: Vec<ConnectionKey>,
    ledgers: Vec<PresenceOperationLedger>,
}

impl View for MemoryStoreState {
    type V = StoreView;

    closed spec fn view(&self) -> StoreView {
        StoreView {
            ledger_policy: self.ledger_policy,
            channels: keyed(channel_names(self.channel_keys@), state_views(self.channel_states@)),
            connection_channels: keyed(
                connection_names(self.connection_keys@),
                channel_sets(self.connection_channels@),
            ),
            ledgers: keyed(connection_names(self.ledger_keys@), ledger_views(self.ledgers@)),
        }
    }
}

impl MemoryStoreState {
    closed spec fn channels_inv(&self) -> bool {
        &&& self.channel_keys@.len() == self.channel_states@.len()
        &&& channel_names(self.channel_keys@).no_duplicates()
        &&& forall|i: int|
            0 <= i < self.channel_states@.len() ==> (#[trigger] self.channel_states@[i])@.wf()
    }

    closed spec fn links_inv(&self) -> bool {
        &&& self.connection_keys@.len() == self.connection_channels@.len()
        &&& connection_names(self.connection_keys@).no_duplicates()
        &&& forall|i: int|
            0 <= i < self.connection_channels@.len() ==> {
                &&& channel_names((#[trigger] self.connection_channels@[i])@).no_duplicates()
                &&& self.connection_channels@[i]@.len() > 0
                &&& forall|j: int|
                    0 <= j < self.connection_channels@[i]@.len()
                        ==> (#[trigger] self.connection_channels@[i]@[j]).application_id@
                        == self.connection_keys@[i].application_id@
            }
    }

    closed spec fn ledgers_inv(&self) -> bool {
        &&& self.ledger_keys@.len() == self.ledgers@.len()
        &&& connection_names(self.ledger_keys@).no_duplicates()
        &&& forall|i: int| 0 <= i < self.ledgers@.len() ==> (#[trigger] self.ledgers@[i]).wf()
    }

    /// The invariant of the store's representation.
    pub closed spec fn wf(&self) -> bool {
        self.channels_inv() && self.links_inv() && self.ledgers_inv()
    }

    /// The representation's invariant gives the store's.
    pub proof fn lemma_wf(&self)
        requires
            self.wf(),
        ensures
            self@.wf(),
    {
        let names = channel_names(self.channel_keys@);
        let states = state_views(self.channel_states@);
        assert forall|k: ChannelName| #[trigger] self@.channels.contains_key(k) implies self@.channels[k].wf() by {
            let i = names.index_of(k);
            lemma_keyed_index(names, states, i);
            assert(self.channel_states@[i]@.wf());
        }
        let cnames = connection_names(self.connection_keys@);
        let sets = channel_sets(self.connection_channels@);
        assert forall|c: ConnectionName| #[trigger] self@.connection_channels.contains_key(c) implies {
            &&& self@.connection_channels[c].finite()
            &&& !self@.connection_channels[c].is_empty()
            &&& forall|k: ChannelName| #[trigger]
                self@.connection_channels[c].contains(k) ==> k.0 == c.0
        } by {
            let i = cnames.index_of(c);
            lemma_keyed_index(cnames, sets, i);
            let list = self.connection_channels@[i]@;
            let ln = channel_names(list);
            vstd::seq_lib::seq_to_set_is_finite(ln);
            assert(ln.to_set().contains(ln[0]));
            assert forall|k: ChannelName| #[trigger] ln.to_set().contains(k) implies k.0 == c.0 by {
                let j = choose|j: int| 0 <= j < ln.len() && ln[j] == k;
                assert(list[j].application_id@ == self.connection_keys@[i].application_id@);
            }
        }
        let lnames = connection_names(self.ledger_keys@);
        let ledgers = ledger_views(self.ledgers@);
        assert forall|c: ConnectionName| #[trigger] self@.ledgers.contains_key(c) implies self@.ledgers[c].wf() by {
            let i = lnames.index_of(c);
            lemma_keyed_index(lnames, ledgers, i);
            self.ledgers@[i].lemma_view_wf();
        }
    }

    /// An empty store with the given journal limits.
    pub fn new(ledger_policy: PresenceLedgerPolicy) -> (r: Self)
        ensures
            r.wf(),
            r@ == StoreView::initial(ledger_policy),
    {
        let r = MemoryStoreState {
            ledger_policy,
            channel_keys: Vec::new(),
            channel_states: Vec::new(),
            connection_keys: Vec::new(),
            connection_channels: Vec::new(),
            ledger_keys: Vec::new(),
            ledgers: Vec::new(),
        };
        proof {
            assert(r@.channels =~= Map::empty());
            assert(r@.connection_channels =~= Map::empty());
            assert(r@.ledgers =~= Map::empty());
        }
        r
    }

    fn find_channel(&self, key: &ChannelKey) -> (r: Option<usize>)
        requires
            self.wf(),
        ensures
            match r {
                Some(i) => i < self.channel_keys@.len() && self.channel_keys@[i as int]@ == key@
                    && self@.channels.contains_key(key@) && self@.channels[key@]
                    == self.channel_states@[i as int]@,
                None => !self@.channels.contains_key(key@),
            },
    {
        let ghost names = channel_names(self.channel_keys@);
        let mut i: usize = 0;
        while i < self.channel_keys.len()
            invariant
                i <= self.channel_keys@.len(),
                self.wf(),
                names == channel_names(self.channel_keys@),
                forall|j: int| 0 <= j < i ==> names[j] != key@,
            decreases self.channel_keys@.len() - i,
        {
            if self.channel_keys[i].same_as(key) {
                proof {
                    lemma_keyed_index(names, state_views(self.channel_states@), i as int);
                }
                return Some(i);
            }
            i = i + 1;
        }
        proof {
            lemma_keyed_absent(names, state_views(self.channel_states@), key@);
        }
        None
    }

    fn find_connection(&self, key: &ConnectionKey) -> (r: Option<usize>)
        requires
            self.wf(),
        ensures
            match r {
                Some(i) => i < self.connection_keys@.len() && self.connection_keys@[i as int]@
                    == key@ && self@.connection_channels.contains_key(key@)
                    && self@.connection_channels[key@] == channel_names(
                    self.connection_channels@[i as int]@,
                ).to_set(),
                None => !self@.connection_channels.contains_key(key@),
            },
    {
        let ghost names = connection_names(self.connection_keys@);
        let mut i: usize = 0;
        while i < self.connection_keys.len()
            invariant
                i <= self.connection_keys@.len(),
                self.wf(),
                names == connection_names(self.connection_keys@),
                forall|j: int| 0 <= j < i ==> names[j] != key@,
            decreases self.connection_keys@.len() - i,
        {
            if self.connection_keys[i].same_as(key) {
                proof {
                    lemma_keyed_index(names, channel_sets(self.connection_channels@), i as int);
                }
                return Some(i);
            }
            i = i + 1;
        }
        proof {
            lemma_keyed_absent(names, channel_sets(self.connection_channels@), key@);
        }
        None
    }

    fn find_ledger(&self, key: &ConnectionKey) -> (r: Option<usize>)
        requires
            self.wf(),
        ensures
            match r {
                Some(i) => i < self.ledger_keys@.len() && self.ledger_keys@[i as int]@ == key@
                    && self@.ledgers.contains_key(key@) && self@.ledgers[key@]
                    == self.ledgers@[i as int]@,
                None => !self@.ledgers.contains_key(key@),
            },
    {
        let ghost names = connection_names(self.ledger_keys@);
        let mut i: usize = 0;
        while i < self.ledger_keys.len()
            invariant
                i <= self.ledger_keys@.len(),
                self.wf(),
                names == connection_names(self.ledger_keys@),
                forall|j: int| 0 <= j < i ==> names[j] != key@,
            decreases self.ledger_keys@.len() - i,
        {
            if self.ledger_keys[i].same_as(key) {
                proof {
                    lemma_keyed_index(names, ledger_views(self.ledgers@), i as int);
                }
                return Some(i);
            }
            i = i + 1;
        }
        proof {
            lemma_keyed_absent(names, ledger_views(self.ledgers@), key@);
        }
        None
    }
}


impl MemoryStoreState {
    /// The snapshot of a channel; the store is not changed.
    pub fn channel_snapshot(&self, channel: &ChannelKey) -> (r: PresenceSnapshot)
        requires
            self.wf(),
        ensures
            r@ == self@.channel(channel@).snapshot(),
    {
        match self.find_channel(channel) {
            Some(i) => self.channel_states[i].snapshot(),
            None => ChannelState::new().snapshot(),
        }
    }

    /// Adds `channel` to the channels of `connection`.
    fn add_link(&mut self, connection: ConnectionKey, channel: ChannelKey)
        requires
            old(self).wf(),
            channel.application_id@ == connection.application_id@,
        ensures
            final(self).wf(),
            final(self)@ == old(self)@.with_link(connection@, channel@),
    {
        let ghost s = self@;
        let ghost cnames = connection_names(self.connection_keys@);
        match self.find_connection(&connection) {
            Some(j) => {
                let ghost list = self.connection_channels@[j as int]@;
                let mut present = false;
                let mut p: usize = 0;
                while p < self.connection_channels[j].len()
                    invariant
                        j < self.connection_channels@.len(),
                        list == self.connection_channels@[j as int]@,
                        p <= list.len(),
                        present == exists|q: int| 0 <= q < p && list[q]@ == channel@,
                    decreases list.len() - p,
                {
                    if self.connection_channels[j][p].same_as(&channel) {
                        present = true;
                    }
                    p = p + 1;
                }
                let ghost names = channel_names(list);
                if present {
                    proof {
                        let q = choose|q: int| 0 <= q < p && list[q]@ == channel@;
                        assert(names[q] == channel@);
                        assert(names.to_set().insert(channel@) =~= names.to_set());
                        assert(s.channels_of(connection@) == names.to_set());
                        assert(s.connection_channels.insert(connection@, names.to_set()) =~= s.connection_channels);
                        assert(self@ =~= s.with_link(connection@, channel@));
                    }
                } else {
                    let mut lists = Vec::new();
                    std::mem::swap(&mut lists, &mut self.connection_channels);
                    let mut moved = lists.remove(j);
                    moved.push(channel);
                    lists.insert(j, moved);
                    std::mem::swap(&mut lists, &mut self.connection_channels);
                    proof {
                        let grown = list.push(channel);
                        assert(self.connection_channels@ =~= old(self).connection_channels@.update(j as int, moved));
                        assert(channel_names(grown) =~= names.push(channel@));
                        assert(!names.contains(channel@)) by {
                            if names.contains(channel@) {
                                let q = choose|q: int| 0 <= q < names.len() && names[q] == channel@;
                                assert(list[q]@ == channel@);
                            }
                        }
                        assert(channel_names(grown).no_duplicates()) by {
                            let g = channel_names(grown);
                            assert forall|a: int, b: int| 0 <= a < g.len() && 0 <= b < g.len() && a != b implies g[a] != g[b] by {
                                if a == names.len() {
                                    assert(names.contains(g[b]));
                                } else if b == names.len() {
                                    assert(names.contains(g[a]));
                                }
                            }
                        }
                        assert(channel_names(grown).to_set() =~= names.to_set().insert(channel@)) by {
                            let g = channel_names(grown);
                            assert forall|x: ChannelName| g.to_set().contains(x) <==> names.to_set().insert(channel@).contains(x) by {
                                if names.contains(x) {
                                    let q = choose|q: int| 0 <= q < names.len() && names[q] == x;
                                    assert(g[q] == x);
                                }
                                if g.contains(x) && x != channel@ {
                                    let q = choose|q: int| 0 <= q < g.len() && g[q] == x;
                                    assert(q < names.len());
                                    assert(names[q] == x);
                                }
                                if x == channel@ {
                                    assert(g[names.len() as int] == x);
                                }
                            }
                        }
                        assert(channel_sets(self.connection_channels@) =~= channel_sets(old(self).connection_channels@).update(j as int, names.to_set().insert(channel@)));
                        lemma_keyed_update(cnames, channel_sets(old(self).connection_channels@), j as int, names.to_set().insert(channel@));
                        assert(self@ =~= s.with_link(connection@, channel@));
                    }
                }
            },
            None => {
                let ghost key = connection@;
                let ghost name = channel@;
                self.connection_keys.push(connection);
                let mut list = Vec::new();
                list.push(channel);
                self.connection_channels.push(list);
                proof {
                    assert(connection_names(self.connection_keys@) =~= cnames.push(key));
                    assert(channel_names(list@) =~= seq![name]);
                    assert(seq![name].to_set() =~= Set::<ChannelName>::empty().insert(name)) by {
                        assert forall|x: ChannelName| seq![name].to_set().contains(x) <==> x == name by {
                            if x == name {
                                assert(seq![name][0] == x);
                            }
                        }
                    }
                    assert(channel_sets(self.connection_channels@) =~= channel_sets(old(self).connection_channels@).push(Set::<ChannelName>::empty().insert(name)));
                    assert(!cnames.contains(key)) by {
                        if cnames.contains(key) {
                            let q = choose|q: int| 0 <= q < cnames.len() && cnames[q] == key;
                            lemma_keyed_index(cnames, channel_sets(old(self).connection_channels@), q);
                        }
                    }
                    lemma_keyed_push(cnames, channel_sets(old(self).connection_channels@), key, Set::<ChannelName>::empty().insert(name));
                    assert(self@ =~= s.with_link(connection@, channel@));
                }
            },
        }
    }
}

impl MemoryStoreState {
    /// Saves the command's attachment into its channel, creating the channel's
    /// entry on success.
    fn save_into_channel(&mut self, command: &AttachCommand) -> (r: Result<
        (PresenceSnapshot, CommittedChannelTransition),
        ChannelStateStoreError,
    >)
        requires
            old(self).wf(),
            command.accounting == AttachmentTracking::Individual,
        ensures
            final(self).wf(),
            match (r, spec_save_attachment(old(self)@.channel(command.channel@), command.spec_attachment())) {
                (Ok((snapshot, transition)), Ok(n)) => {
                    &&& final(self)@ == (StoreView {
                        channels: old(self)@.channels.insert(command.channel@, n),
                        ..old(self)@
                    })
                    &&& snapshot@ == n.snapshot()
                    &&& transition@ == attach_transition(old(self)@.channel(command.channel@), n, command)
                },
                (Err(e), Err(v)) => err_view(e) == v && final(self)@ == old(self)@,
                _ => false,
            },
    {
        let ghost s = self@;
        let ghost names = channel_names(self.channel_keys@);
        let ghost before = s.channel(command.channel@);
        let ghost a = command.spec_attachment();
        let attachment = command.to_attachment();
        let (saved, snapshot) = match self.find_channel(&command.channel) {
            Some(i) => {
                let result = self.channel_states[i].save_attachment(attachment);
                match result {
                    Err(e) => {
                        proof {
                            assert(state_views(self.channel_states@) =~= state_views(old(self).channel_states@));
                            assert(self@ =~= s);
                        }
                        return Err(e);
                    },
                    Ok(saved) => {
                        let snapshot = self.channel_states[i].snapshot();
                        proof {
                            let n = self.channel_states@[i as int]@;
                            assert(state_views(self.channel_states@) =~= state_views(old(self).channel_states@).update(i as int, n));
                            lemma_keyed_update(names, state_views(old(self).channel_states@), i as int, n);
                            assert(self@ =~= (StoreView { channels: s.channels.insert(command.channel@, n), ..s }));
                        }
                        (saved, snapshot)
                    },
                }
            },
            None => {
                let mut state = ChannelState::new();
                let result = state.save_attachment(attachment);
                match result {
                    Err(e) => {
                        return Err(e);
                    },
                    Ok(saved) => {
                        let snapshot = state.snapshot();
                        let ghost n = state@;
                        self.channel_keys.push(command.channel.clone());
                        self.channel_states.push(state);
                        proof {
                            assert(channel_names(self.channel_keys@) =~= names.push(command.channel@));
                            assert(state_views(self.channel_states@) =~= state_views(old(self).channel_states@).push(n));
                            assert(!names.contains(command.channel@)) by {
                                if names.contains(command.channel@) {
                                    let q = choose|q: int| 0 <= q < names.len() && names[q] == command.channel@;
                                    lemma_keyed_index(names, state_views(old(self).channel_states@), q);
                                }
                            }
                            lemma_keyed_push(names, state_views(old(self).channel_states@), command.channel@, n);
                            assert(self@ =~= (StoreView { channels: s.channels.insert(command.channel@, n), ..s }));
                        }
                        (saved, snapshot)
                    },
                }
            },
        };
        proof {
            let n = self@.channels[command.channel@];
            if removes_on_save(before, a) {
                lemma_by_client(members_view(saved.removed_members@), connection_members(before.members, a.connection_id));
            } else {
                assert(members_view(saved.removed_members@) =~= Seq::empty());
            }
        }
        let occupancy_version = snapshot.occupancy_version;
        let transition = saved.into_transition(command, occupancy_version);
        Ok((snapshot, transition))
    }
}

fn closed_connection_error(connection: &ConnectionId) -> (r: ChannelStateStoreError)
    ensures
        err_view(r) == (StoreErrorKind::Conflict, closed_connection_message(connection@)),
{
    let mut message = "connection ".to_owned();
    push_str(&mut message, connection.as_str());
    push_str(&mut message, " is closed and cannot attach");
    ChannelStateStoreError::conflict(message)
}

impl MemoryStoreState {
    /// Whether the connection's journal is closed.
    fn connection_closed(&self, connection: &ConnectionKey) -> (r: bool)
        requires
            self.wf(),
        ensures
            r == self@.is_closed(connection@),
    {
        match self.find_ledger(connection) {
            Some(i) => self.ledgers[i].is_closed(),
            None => false,
        }
    }

    /// Stores an individual attachment and returns the channel's snapshot.
    ///
    /// A repeated attach of the same connection is idempotent: the attachment
    /// is replaced, the counters do not grow, and a fresh snapshot is returned.
    /// A disconnected connection cannot attach again while its journal is kept.
    pub fn attach(&mut self, command: AttachCommand) -> (r: Result<
        ChannelAttachOutcome,
        ChannelStateStoreError,
    >)
        requires
            old(self).wf(),
        ensures
            final(self).wf(),
            match (r, spec_attach(old(self)@, &command)) {
                (Ok(outcome), Ok((store, view))) => final(self)@ == store && outcome@ == view,
                (Err(e), Err(v)) => err_view(e) == v && final(self)@ == old(self)@,
                _ => false,
            },
    {
        if command.accounting != AttachmentTracking::Individual {
            return Err(ChannelStateStoreError::invalid_request(
                "individual attachment accounting is required",
            ));
        }
        if !command.channel.belongs_to_application(&command.actor.application_id) {
            return Err(ChannelStateStoreError::invalid_request(
                "channel and connection belong to different applications",
            ));
        }
        let connection = ConnectionKey::of_actor(&command.actor);
        if self.connection_closed(&connection) {
            return Err(closed_connection_error(&command.actor.connection_id));
        }
        let (snapshot, transition) = match self.save_into_channel(&command) {
            Ok(saved) => saved,
            Err(e) => {
                return Err(e);
            },
        };
        let channel = command.channel.clone();
        self.add_link(connection, channel);
        let attachment = command.to_attachment();
        Ok(ChannelAttachOutcome { attachment, snapshot, transition })
    }
}

/// The transition of detaching the actor's connection from the channel
/// `channel`, in state `s` before and `n` after, with the event identifier
/// `event_id`.
pub open spec fn detach_transition(
    s: ChannelStateView,
    n: ChannelStateView,
    channel: ChannelName,
    actor: &ConnectionActor,
    request_time: Timestamp,
    event_id: u128,
) -> TransitionView {
    let connection = actor.connection_id@;
    let removed = connection_members(s.members, connection);
    match attachment_slot(s.attachments, connection) {
        None => TransitionView::Unchanged { occupancy_version: s.occupancy_version },
        Some(_) => TransitionView::Changed(
            server_event(
                event_id,
                channel,
                actor.node_instance@,
                if removed.len() > 0 {
                    Some(n.presence_revision)
                } else {
                    None
                },
                n.occupancy_version,
                by_client(removed),
                OccupancyChange::spec_between(s.occupancy(), n.occupancy())->0,
                request_time,
            ),
        ),
    }
}

/// Why detaching the actor's connection from `channel` would fail, if it would.
pub open spec fn detach_error(s: StoreView, actor: &ConnectionActor, channel: ChannelName) -> Option<
    ErrView,
> {
    if channel.0 != actor.application_id@ {
        Some((StoreErrorKind::InvalidRequest, different_applications_message()))
    } else if s.channels.contains_key(channel) {
        match spec_detach(s.channels[channel], actor) {
            Err(e) => Some(e),
            Ok(_) => None,
        }
    } else {
        None
    }
}

/// The store after detaching the actor's connection from `channel`.
pub open spec fn detach_step(s: StoreView, actor: &ConnectionActor, channel: ChannelName) -> StoreView {
    let connection = connection_name(actor);
    if s.channels.contains_key(channel) {
        StoreView {
            channels: s.channels.insert(channel, spec_detach(s.channels[channel], actor)->Ok_0),
            ..s
        }.without_link(connection, channel)
    } else {
        s.without_link(connection, channel)
    }
}

/// The transition of detaching the actor's connection from `channel`.
pub open spec fn channel_transition(
    s: StoreView,
    actor: &ConnectionActor,
    channel: ChannelName,
    request_time: Timestamp,
    event_id: u128,
) -> TransitionView {
    if s.channels.contains_key(channel) {
        detach_transition(
            s.channels[channel],
            spec_detach(s.channels[channel], actor)->Ok_0,
            channel,
            actor,
            request_time,
            event_id,
        )
    } else {
        TransitionView::Unchanged { occupancy_version: 0 }
    }
}

/// Detaching a connection from one channel: the refusal, or the store and
/// transition after it.
pub open spec fn spec_detach_channel(s: StoreView, command: &DetachCommand) -> Result<
    (StoreView, TransitionView),
    ErrView,
> {
    match detach_error(s, &command.actor, command.channel@) {
        Some(e) => Err(e),
        None => Ok(
            (
                detach_step(s, &command.actor, command.channel@),
                channel_transition(
                    s,
                    &command.actor,
                    command.channel@,
                    command.request_time,
                    command.event_id,
                ),
            ),
        ),
    }
}

impl MemoryStoreState {
    /// Removes `channel` from the channels of `connection`.
    fn remove_link(&mut self, connection: &ConnectionKey, channel: &ChannelKey)
        requires
            old(self).wf(),
        ensures
            final(self).wf(),
            final(self)@ == old(self)@.without_link(connection@, channel@),
    {
        let ghost s = self@;
        let ghost cnames = connection_names(self.connection_keys@);
        let ghost sets = channel_sets(self.connection_channels@);
        let j = match self.find_connection(connection) {
            None => {
                return;
            },
            Some(j) => j,
        };
        let ghost list = self.connection_channels@[j as int]@;
        let ghost names = channel_names(list);
        let mut found: Option<usize> = None;
        let mut p: usize = 0;
        while p < self.connection_channels[j].len()
            invariant
                j < self.connection_channels@.len(),
                list == self.connection_channels@[j as int]@,
                p <= list.len(),
                match found {
                    Some(q) => q < list.len() && list[q as int]@ == channel@,
                    None => forall|q: int| 0 <= q < p ==> list[q]@ != channel@,
                },
            decreases list.len() - p,
        {
            if found.is_none() && self.connection_channels[j][p].same_as(channel) {
                found = Some(p);
            }
            p = p + 1;
        }
        let q = match found {
            None => {
                proof {
                    assert(!names.contains(channel@)) by {
                        if names.contains(channel@) {
                            let q = choose|q: int| 0 <= q < names.len() && names[q] == channel@;
                            assert(list[q]@ == channel@);
                        }
                    }
                    assert(names.to_set().remove(channel@) =~= names.to_set());
                    assert(names.to_set().contains(names[0]));
                    assert(s.connection_channels.insert(connection@, names.to_set()) =~= s.connection_channels);
                    assert(self@ =~= s.without_link(connection@, channel@));
                }
                return;
            },
            Some(q) => q,
        };
        let mut lists = Vec::new();
        std::mem::swap(&mut lists, &mut self.connection_channels);
        let mut moved = lists.remove(j);
        moved.remove(q);
        let ghost rest = moved@;
        let ghost rest_set = names.to_set().remove(channel@);
        proof {
            assert(channel_names(rest) =~= names.remove(q as int));
            assert(names[q as int] == channel@);
            assert(channel_names(rest).no_duplicates()) by {
                let g = channel_names(rest);
                assert forall|a: int, b: int| 0 <= a < g.len() && 0 <= b < g.len() && a != b implies g[a] != g[b] by {
                    let a0 = if a < q { a } else { a + 1 };
                    let b0 = if b < q { b } else { b + 1 };
                    assert(g[a] == names[a0]);
                    assert(g[b] == names[b0]);
                }
            }
            assert(channel_names(rest).to_set() =~= rest_set) by {
                let g = channel_names(rest);
                assert forall|x: ChannelName| g.to_set().contains(x) <==> rest_set.contains(x) by {
                    if g.contains(x) {
                        let a = choose|a: int| 0 <= a < g.len() && g[a] == x;
                        let a0 = if a < q { a } else { a + 1 };
                        assert(names[a0] == x);
                        assert(a0 != q);
                    }
                    if names.contains(x) && x != channel@ {
                        let a = choose|a: int| 0 <= a < names.len() && names[a] == x;
                        assert(a != q);
                        let a1 = if a < q { a } else { a - 1 };
                        assert(g[a1] == x);
                    }
                }
            }
        }
        if moved.len() == 0 {
            std::mem::swap(&mut lists, &mut self.connection_channels);
            self.connection_keys.remove(j);
            proof {
                assert(self.connection_channels@ =~= old(self).connection_channels@.remove(j as int));
                assert(connection_names(self.connection_keys@) =~= cnames.remove(j as int));
                assert(channel_sets(self.connection_channels@) =~= sets.remove(j as int));
                lemma_keyed_remove(cnames, sets, j as int);
                assert(rest_set =~= Set::<ChannelName>::empty()) by {
                    assert forall|x: ChannelName| !rest_set.contains(x) by {
                        if rest_set.contains(x) {
                            assert(channel_names(rest).to_set().contains(x));
                        }
                    }
                }
                assert(self@ =~= s.without_link(connection@, channel@));
            }
        } else {
            lists.insert(j, moved);
            std::mem::swap(&mut lists, &mut self.connection_channels);
            proof {
                assert(self.connection_channels@ =~= old(self).connection_channels@.update(j as int, moved));
                assert(channel_sets(self.connection_channels@) =~= sets.update(j as int, rest_set));
                lemma_keyed_update(cnames, sets, j as int, rest_set);
                assert(channel_names(rest).to_set().contains(channel_names(rest)[0]));
                assert(!rest_set.is_empty());
                assert forall|i: int| 0 <= i < self.connection_channels@.len() implies {
                    &&& channel_names((#[trigger] self.connection_channels@[i])@).no_duplicates()
                    &&& self.connection_channels@[i]@.len() > 0
                    &&& forall|b: int|
                        0 <= b < self.connection_channels@[i]@.len()
                            ==> (#[trigger] self.connection_channels@[i]@[b]).application_id@
                            == self.connection_keys@[i].application_id@
                } by {
                    if i == j {
                        assert forall|b: int| 0 <= b < rest.len() implies (#[trigger] rest[b]).application_id@ == self.connection_keys@[i].application_id@ by {
                            let b0 = if b < q { b } else { b + 1 };
                            assert(rest[b] == list[b0]);
                        }
                    }
                }
                assert(self@ =~= s.without_link(connection@, channel@));
            }
        }
    }

    /// Ends a connection's work with one channel.
    ///
    /// All Presence members of the connection in that channel leave with the
    /// attachment. Detaching an attachment that is already gone succeeds.
    pub fn detach(&mut self, command: DetachCommand) -> (r: Result<
        CommittedChannelTransition,
        ChannelStateStoreError,
    >)
        requires
            old(self).wf(),
        ensures
            final(self).wf(),
            match (r, spec_detach_channel(old(self)@, &command)) {
                (Ok(transition), Ok((store, view))) => final(self)@ == store && transition@ == view,
                (Err(e), Err(v)) => err_view(e) == v && final(self)@ == old(self)@,
                _ => false,
            },
    {
        let ghost s = self@;
        let ghost names = channel_names(self.channel_keys@);
        if !command.channel.belongs_to_application(&command.actor.application_id) {
            return Err(ChannelStateStoreError::invalid_request(
                "channel and connection belong to different applications",
            ));
        }
        let connection = ConnectionKey::of_actor(&command.actor);
        let outcome = match self.find_channel(&command.channel) {
            Some(i) => {
                let ghost before = self.channel_states@[i as int]@;
                let result = self.channel_states[i].detach_individual(&command.actor);
                match result {
                    Err(e) => {
                        proof {
                            assert(state_views(self.channel_states@) =~= state_views(old(self).channel_states@));
                            assert(self@ =~= s);
                        }
                        return Err(e);
                    },
                    Ok(outcome) => {
                        proof {
                            let n = self.channel_states@[i as int]@;
                            assert(state_views(self.channel_states@) =~= state_views(old(self).channel_states@).update(i as int, n));
                            lemma_keyed_update(names, state_views(old(self).channel_states@), i as int, n);
                            assert(self@ =~= (StoreView { channels: s.channels.insert(command.channel@, n), ..s }));
                            if outcome is Detached {
                                lemma_by_client(members_view(outcome->removed_members@), connection_members(before.members, command.actor.connection_id@));
                            }
                        }
                        outcome
                    },
                }
            },
            None => IndividualDetachOutcome::NotAttached { occupancy_version: 0 },
        };
        self.remove_link(&connection, &command.channel);
        Ok(outcome.into_transition(command))
    }
}

/// The connection's journal, or a new one when it has none.
pub open spec fn ledger_or_fresh(s: StoreView, connection: ConnectionName) -> LedgerView {
    if s.ledgers.contains_key(connection) {
        s.ledgers[connection]
    } else {
        LedgerView::fresh(s.ledger_policy.capacity)
    }
}

/// The store without the journals closed more than the retention before `now`.
pub open spec fn swept(s: StoreView, now: Timestamp) -> StoreView {
    StoreView {
        ledgers: Map::new(
            |c: ConnectionName|
                s.ledgers.contains_key(c) && !s.ledgers[c].is_expired(
                    now,
                    s.ledger_policy.retention_millis,
                ),
            |c: ConnectionName| s.ledgers[c],
        ),
        ..s
    }
}

impl MemoryStoreState {
    /// The position of the connection's journal, created when missing.
    fn ensure_ledger(&mut self, connection: &ConnectionKey) -> (i: usize)
        requires
            old(self).wf(),
        ensures
            final(self).wf(),
            i < final(self).ledgers@.len(),
            final(self).ledger_keys@[i as int]@ == connection@,
            final(self).ledgers@[i as int]@ == ledger_or_fresh(old(self)@, connection@),
            final(self)@ == (StoreView {
                ledgers: old(self)@.ledgers.insert(connection@, ledger_or_fresh(old(self)@, connection@)),
                ..old(self)@
            }),
    {
        let ghost s = self@;
        let ghost names = connection_names(self.ledger_keys@);
        match self.find_ledger(connection) {
            Some(i) => {
                proof {
                    assert(s.ledgers.insert(connection@, s.ledgers[connection@]) =~= s.ledgers);
                    assert(self@ =~= (StoreView { ledgers: s.ledgers.insert(connection@, ledger_or_fresh(s, connection@)), ..s }));
                }
                i
            },
            None => {
                let ledger = PresenceOperationLedger::new(self.ledger_policy.capacity);
                let ghost lv = ledger@;
                self.ledger_keys.push(connection.clone());
                self.ledgers.push(ledger);
                proof {
                    assert(connection_names(self.ledger_keys@) =~= names.push(connection@));
                    assert(ledger_views(self.ledgers@) =~= ledger_views(old(self).ledgers@).push(lv));
                    assert(!names.contains(connection@)) by {
                        if names.contains(connection@) {
                            let q = choose|q: int| 0 <= q < names.len() && names[q] == connection@;
                            lemma_keyed_index(names, ledger_views(old(self).ledgers@), q);
                        }
                    }
                    lemma_keyed_push(names, ledger_views(old(self).ledgers@), connection@, lv);
                    assert(self@ =~= (StoreView { ledgers: s.ledgers.insert(connection@, ledger_or_fresh(s, connection@)), ..s }));
                }
                self.ledgers.len() - 1
            },
        }
    }

    /// Closes the connection's journal at `at`, creating it when missing.
    fn close_ledger(&mut self, connection: &ConnectionKey, at: Timestamp)
        requires
            old(self).wf(),
        ensures
            final(self).wf(),
            final(self)@ == (StoreView {
                ledgers: old(self)@.ledgers.insert(connection@, ledger_or_fresh(old(self)@, connection@).close(at)),
                ..old(self)@
            }),
    {
        let ghost s = self@;
        let i = self.ensure_ledger(connection);
        let ghost mid = self@;
        let ghost names = connection_names(self.ledger_keys@);
        let ghost views = ledger_views(self.ledgers@);
        self.ledgers[i].close(at);
        proof {
            let lv = self.ledgers@[i as int]@;
            assert(ledger_views(self.ledgers@) =~= views.update(i as int, lv));
            lemma_keyed_update(names, views, i as int, lv);
            assert(names[i as int] == connection@);
            assert(self@.ledgers =~= s.ledgers.insert(connection@, ledger_or_fresh(s, connection@).close(at)));
            assert(self@ =~= (StoreView { ledgers: s.ledgers.insert(connection@, ledger_or_fresh(s, connection@).close(at)), ..s }));
        }
    }

    /// Removes the journals of connections closed more than the retention
    /// before `now`, and returns how many were removed.
    ///
    /// Runs on every disconnect and may run on a timer. The retention must not
    /// be shorter than the longest retry or resume window: once a journal is
    /// gone, a late repeat cannot be told from a new operation.
    pub fn sweep_presence_ledgers(&mut self, now: Timestamp) -> (r: usize)
        requires
            old(self).wf(),
        ensures
            final(self).wf(),
            final(self)@ == swept(old(self)@, now),
            r == old(self)@.ledgers.len() - final(self)@.ledgers.len(),
    {
        let ghost s = self@;
        proof {
            lemma_keyed_len(connection_names(self.ledger_keys@), ledger_views(self.ledgers@));
        }
        let before = self.ledgers.len();
        let retention = self.ledger_policy.retention_millis;
        let mut i: usize = 0;
        while i < self.ledgers.len()
            invariant
                self.wf(),
                i <= self.ledgers@.len(),
                self.ledgers@.len() <= before,
                retention == s.ledger_policy.retention_millis,
                self@.ledger_policy == s.ledger_policy,
                self@.channels == s.channels,
                self@.connection_channels == s.connection_channels,
                forall|p: int| 0 <= p < i ==> !(#[trigger] self.ledgers@[p])@.is_expired(now, retention),
                forall|c: ConnectionName| #[trigger] self@.ledgers.contains_key(c) ==> s.ledgers.contains_key(c)
                    && self@.ledgers[c] == s.ledgers[c],
                forall|c: ConnectionName| #[trigger] s.ledgers.contains_key(c) && !s.ledgers[c].is_expired(now, retention)
                    ==> self@.ledgers.contains_key(c),
            decreases self.ledgers@.len() - i,
        {
            if self.ledgers[i].is_expired(now, retention) {
                let ghost cur = self@;
                let ghost names = connection_names(self.ledger_keys@);
                let ghost views = ledger_views(self.ledgers@);
                let ghost prev = self.ledgers@;
                self.ledger_keys.remove(i);
                self.ledgers.remove(i);
                proof {
                    assert(connection_names(self.ledger_keys@) =~= names.remove(i as int));
                    assert(ledger_views(self.ledgers@) =~= views.remove(i as int));
                    lemma_keyed_remove(names, views, i as int);
                    lemma_keyed_index(names, views, i as int);
                    assert(self@.ledgers == cur.ledgers.remove(names[i as int]));
                    assert forall|p: int| 0 <= p < i implies !(#[trigger] self.ledgers@[p])@.is_expired(now, retention) by {
                        assert(self.ledgers@[p] == prev[p]);
                    }
                }
            } else {
                i = i + 1;
            }
        }
        proof {
            let names = connection_names(self.ledger_keys@);
            let views = ledger_views(self.ledgers@);
            assert forall|c: ConnectionName| #[trigger] self@.ledgers.contains_key(c) implies !self@.ledgers[c].is_expired(now, retention) by {
                let p = names.index_of(c);
                lemma_keyed_index(names, views, p);
                assert(!self.ledgers@[p]@.is_expired(now, retention));
            }
            let w = swept(s, now);
            assert forall|c: ConnectionName| #[trigger] self@.ledgers.contains_key(c) <==> w.ledgers.contains_key(c) by {}
            assert forall|c: ConnectionName| #[trigger] self@.ledgers.contains_key(c) implies self@.ledgers[c] == w.ledgers[c] by {}
            assert(self@.ledgers =~= w.ledgers);
            assert(self@ =~= swept(s, now));
            lemma_keyed_len(names, views);
        }
        before - self.ledgers.len()
    }
}

/// The channels of a set in increasing order of name.
pub open spec fn by_channel_name(channels: Set<ChannelName>) -> Seq<ChannelName> {
    choose|order: Seq<ChannelName>| strictly_sorted(order, name_key()) && order.to_set() == channels
}

/// A sorted arrangement of some channels is the one `by_channel_name` names.
pub proof fn lemma_by_channel_name(order: Seq<ChannelName>, channels: Set<ChannelName>)
    requires
        strictly_sorted(order, name_key()),
        order.to_set() == channels,
    ensures
        order == by_channel_name(channels),
{
    let other = by_channel_name(channels);
    assert(strictly_sorted(other, name_key()) && other.to_set() == channels);
    assert forall|x: ChannelName| order.contains(x) <==> other.contains(x) by {
        assert(order.to_set().contains(x) == other.to_set().contains(x));
    }
    lemma_strictly_sorted_unique(order, other, name_key());
}

/// A finite set of channels with distinct names has a channel with the
/// greatest name.
proof fn lemma_last_by_name(channels: Set<ChannelName>)
    requires
        channels.finite(),
        !channels.is_empty(),
        forall|x: ChannelName, y: ChannelName|
            channels.contains(x) && channels.contains(y) && x.1 == y.1 ==> x == y,
    ensures
        exists|m: ChannelName|
            #![trigger channels.contains(m)]
            channels.contains(m) && forall|y: ChannelName|
                channels.contains(y) && y != m ==> text_lt(y.1, m.1),
    decreases channels.len(),
{
    let c = channels.choose();
    let rest = channels.remove(c);
    if rest.is_empty() {
        assert forall|y: ChannelName| channels.contains(y) && y != c implies text_lt(y.1, c.1) by {
            assert(rest.contains(y));
        }
    } else {
        lemma_last_by_name(rest);
        let m = choose|m: ChannelName|
            #![trigger rest.contains(m)]
            rest.contains(m) && forall|y: ChannelName| rest.contains(y) && y != m ==> text_lt(y.1, m.1);
        lemma_text_lt_total(c.1, m.1);
        if text_lt(c.1, m.1) {
            assert forall|y: ChannelName| channels.contains(y) && y != m implies text_lt(y.1, m.1) by {
                if y != c {
                    assert(rest.contains(y));
                }
            }
        } else {
            assert(c.1 != m.1);
            assert(text_lt(m.1, c.1));
            assert forall|y: ChannelName| channels.contains(y) && y != c implies text_lt(y.1, c.1) by {
                assert(rest.contains(y));
                if y != m {
                    lemma_text_lt_transitive(y.1, m.1, c.1);
                }
            }
        }
    }
}

/// A finite set of channels with distinct names has an arrangement by name.
pub proof fn lemma_by_channel_name_exists(channels: Set<ChannelName>)
    requires
        channels.finite(),
        forall|x: ChannelName, y: ChannelName|
            channels.contains(x) && channels.contains(y) && x.1 == y.1 ==> x == y,
    ensures
        strictly_sorted(by_channel_name(channels), name_key()),
        by_channel_name(channels).to_set() == channels,
    decreases channels.len(),
{
    if channels.is_empty() {
        let none = Seq::<ChannelName>::empty();
        assert(none.to_set() =~= channels);
        assert(strictly_sorted(none, name_key()));
    } else {
        lemma_last_by_name(channels);
        let m = choose|m: ChannelName|
            #![trigger channels.contains(m)]
            channels.contains(m) && forall|y: ChannelName|
                channels.contains(y) && y != m ==> text_lt(y.1, m.1);
        let rest = channels.remove(m);
        lemma_by_channel_name_exists(rest);
        let prefix = by_channel_name(rest);
        let order = prefix.push(m);
        assert forall|i: int, j: int| 0 <= i < j < order.len() implies text_lt(
            name_key()(#[trigger] order[i]),
            name_key()(#[trigger] order[j]),
        ) by {
            if j == prefix.len() {
                assert(prefix.to_set().contains(prefix[i]));
                assert(rest.contains(order[i]));
            } else {
                assert(text_lt(name_key()(prefix[i]), name_key()(prefix[j])));
            }
        }
        assert forall|x: ChannelName| order.to_set().contains(x) <==> channels.contains(x) by {
            if x == m {
                assert(order[prefix.len() as int] == x);
            } else {
                if channels.contains(x) {
                    assert(rest.contains(x));
                    assert(prefix.to_set().contains(x));
                    let i = choose|i: int| 0 <= i < prefix.len() && prefix[i] == x;
                    assert(order[i] == x);
                }
                if order.to_set().contains(x) {
                    let i = choose|i: int| 0 <= i < order.len() && order[i] == x;
                    assert(i < prefix.len());
                    assert(prefix.to_set().contains(x));
                }
            }
        }
        assert(order.to_set() =~= channels);
        assert(strictly_sorted(order, name_key()) && order.to_set() == channels);
    }
}

/// `i` is the first position of `order` whose detach would fail.
pub open spec fn is_first_failure(
    s: StoreView,
    actor: &ConnectionActor,
    order: Seq<ChannelName>,
    i: int,
) -> bool {
    &&& 0 <= i < order.len()
    &&& detach_error(s, actor, order[i]) is Some
    &&& forall|j: int| 0 <= j < i ==> detach_error(s, actor, #[trigger] order[j]) is None
}

/// The store after detaching the actor's connection from each channel of
/// `order`, one after the other.
pub open spec fn detach_all(s: StoreView, actor: &ConnectionActor, order: Seq<ChannelName>) -> StoreView
    decreases order.len(),
{
    if order.len() == 0 {
        s
    } else {
        detach_step(detach_all(s, actor, order.drop_last()), actor, order.last())
    }
}

/// The transitions of a disconnect, one per channel of `order`.
pub open spec fn disconnect_transitions(
    s: StoreView,
    command: &DisconnectConnectionCommand,
    order: Seq<ChannelName>,
) -> Seq<TransitionView> {
    Seq::new(
        order.len(),
        |i: int|
            channel_transition(
                s,
                &command.actor,
                order[i],
                command.request_time,
                command.spec_channel_event_id(order[i].1),
            ),
    )
}

/// The store after the connection left the index and its journal was
/// closed at `now`, and expired journals were swept.
pub open spec fn finish_disconnect(s: StoreView, connection: ConnectionName, now: Timestamp) -> StoreView {
    swept(
        StoreView {
            connection_channels: s.connection_channels.remove(connection),
            ledgers: s.ledgers.insert(connection, ledger_or_fresh(s, connection).close(now)),
            ..s
        },
        now,
    )
}

/// Disconnecting a connection: the refusal, or the store and the transitions,
/// in increasing order of channel name, after it.
///
/// Every channel is checked before the first one changes.
pub open spec fn spec_disconnect(s: StoreView, command: &DisconnectConnectionCommand) -> Result<
    (StoreView, Seq<TransitionView>),
    ErrView,
> {
    let connection = connection_name(&command.actor);
    let order = by_channel_name(s.channels_of(connection));
    if exists|i: int| is_first_failure(s, &command.actor, order, i) {
        Err(
            detach_error(
                s,
                &command.actor,
                order[choose|i: int| is_first_failure(s, &command.actor, order, i)],
            )->0,
        )
    } else {
        Ok(
            (
                finish_disconnect(detach_all(s, &command.actor, order), connection, command.request_time),
                disconnect_transitions(s, command, order),
            ),
        )
    }
}

/// Detaching from other channels leaves a channel as it was.
pub proof fn lemma_detach_all_frame(
    s: StoreView,
    actor: &ConnectionActor,
    order: Seq<ChannelName>,
    channel: ChannelName,
)
    requires
        !order.contains(channel),
    ensures
        detach_all(s, actor, order).channels.contains_key(channel) == s.channels.contains_key(channel),
        s.channels.contains_key(channel) ==> detach_all(s, actor, order).channels[channel]
            == s.channels[channel],
        detach_all(s, actor, order).ledgers == s.ledgers,
        detach_all(s, actor, order).ledger_policy == s.ledger_policy,
    decreases order.len(),
{
    if order.len() > 0 {
        let rest = order.drop_last();
        assert(!rest.contains(channel)) by {
            if rest.contains(channel) {
                let j = choose|j: int| 0 <= j < rest.len() && rest[j] == channel;
                assert(order[j] == channel);
            }
        }
        assert(order[order.len() - 1] != channel);
        lemma_detach_all_frame(s, actor, rest, channel);
    }
}

/// The transitions of a list of channel transitions.
pub open spec fn transitions_view(transitions: Seq<CommittedChannelTransition>) -> Seq<TransitionView> {
    transitions.map_values(|t: CommittedChannelTransition| t@)
}

impl MemoryStoreState {
    /// A copy of the channels of a connection.
    fn channels_of_connection(&self, connection: &ConnectionKey) -> (r: Vec<ChannelKey>)
        requires
            self.wf(),
        ensures
            channel_names(r@).to_set() == self@.channels_of(connection@),
            channel_names(r@).no_duplicates(),
            forall|j: int| 0 <= j < r@.len() ==> (#[trigger] r@[j]).application_id@ == connection@.0,
    {
        let mut copy: Vec<ChannelKey> = Vec::new();
        match self.find_connection(connection) {
            None => {
                proof {
                    assert(channel_names(copy@).to_set() =~= Set::<ChannelName>::empty());
                }
            },
            Some(j) => {
                let ghost list = self.connection_channels@[j as int]@;
                let mut p: usize = 0;
                while p < self.connection_channels[j].len()
                    invariant
                        self.wf(),
                        j < self.connection_channels@.len(),
                        list == self.connection_channels@[j as int]@,
                        p <= list.len(),
                        copy@ == list.take(p as int),
                    decreases list.len() - p,
                {
                    copy.push(self.connection_channels[j][p].clone());
                    proof {
                        assert(list.take(p + 1) =~= list.take(p as int).push(list[p as int]));
                    }
                    p = p + 1;
                }
                proof {
                    assert(list.take(list.len() as int) =~= list);
                    assert(self.connection_keys@[j as int]@ == connection@);
                }
            },
        }
        copy
    }

    /// Removes the connection from the index of attached channels.
    fn remove_connection(&mut self, connection: &ConnectionKey)
        requires
            old(self).wf(),
        ensures
            final(self).wf(),
            final(self)@ == (StoreView {
                connection_channels: old(self)@.connection_channels.remove(connection@),
                ..old(self)@
            }),
    {
        let ghost s = self@;
        let ghost names = connection_names(self.connection_keys@);
        let ghost sets = channel_sets(self.connection_channels@);
        match self.find_connection(connection) {
            None => {
                proof {
                    assert(s.connection_channels.remove(connection@) =~= s.connection_channels);
                    assert(self@ =~= (StoreView { connection_channels: s.connection_channels.remove(connection@), ..s }));
                }
            },
            Some(j) => {
                self.connection_keys.remove(j);
                self.connection_channels.remove(j);
                proof {
                    assert(connection_names(self.connection_keys@) =~= names.remove(j as int));
                    assert(channel_sets(self.connection_channels@) =~= sets.remove(j as int));
                    lemma_keyed_remove(names, sets, j as int);
                    assert forall|i: int| 0 <= i < self.connection_channels@.len() implies {
                        &&& channel_names((#[trigger] self.connection_channels@[i])@).no_duplicates()
                        &&& self.connection_channels@[i]@.len() > 0
                        &&& forall|b: int|
                            0 <= b < self.connection_channels@[i]@.len()
                                ==> (#[trigger] self.connection_channels@[i]@[b]).application_id@
                                == self.connection_keys@[i].application_id@
                    } by {
                        let i0 = if i < j { i } else { i + 1 };
                        assert(self.connection_channels@[i] == old(self).connection_channels@[i0]);
                        assert(self.connection_keys@[i] == old(self).connection_keys@[i0]);
                    }
                    assert(self@ =~= (StoreView { connection_channels: s.connection_channels.remove(connection@), ..s }));
                }
            },
        }
    }

    /// Removes a connection from all its channels and closes its journal.
    ///
    /// Every channel is checked before the first attachment is removed; the
    /// transitions come in increasing order of channel name. A repeated
    /// disconnect returns no transitions. The journal is kept closed, so a late
    /// repeat of a known operation still gets its outcome and an unknown one
    /// is refused; expired journals are swept on the way.
    pub fn disconnect(&mut self, command: DisconnectConnectionCommand) -> (r: Result<
        Vec<CommittedChannelTransition>,
        ChannelStateStoreError,
    >)
        requires
            old(self).wf(),
        ensures
            final(self).wf(),
            match (r, spec_disconnect(old(self)@, &command)) {
                (Ok(transitions), Ok((store, views))) => final(self)@ == store && transitions_view(
                    transitions@,
                ) == views,
                (Err(e), Err(v)) => err_view(e) == v && final(self)@ == old(self)@,
                _ => false,
            },
    {
        let ghost s = self@;
        let connection = ConnectionKey::of_actor(&command.actor);
        let ghost c = connection@;
        assert(c == connection_name(&command.actor));
        let listed = self.channels_of_connection(&connection);
        proof {
            assert forall|i: int, j: int|
                0 <= i < listed@.len() && 0 <= j < listed@.len() && i != j implies (#[trigger] listed@[i]).channel@
                != (#[trigger] listed@[j]).channel@ by {
                assert(channel_names(listed@)[i] != channel_names(listed@)[j]);
            }
        }
        let order = sort_by_name(listed);
        let ghost names = channel_names(order@);
        proof {
            assert(names.to_set() =~= channel_names(listed@).to_set());
            lemma_by_channel_name(names, s.channels_of(c));
            assert(names.no_duplicates()) by {
                assert forall|i: int, j: int| 0 <= i < names.len() && 0 <= j < names.len() && i != j implies names[i] != names[j] by {
                    if i < j {
                        assert(text_lt(name_key()(names[i]), name_key()(names[j])));
                        lemma_text_lt_asymmetric(names[i].1, names[i].1);
                    } else {
                        assert(text_lt(name_key()(names[j]), name_key()(names[i])));
                        lemma_text_lt_asymmetric(names[j].1, names[j].1);
                    }
                }
            }
        }
        let mut i: usize = 0;
        while i < order.len()
            invariant
                self.wf(),
                self@ == s,
                i <= order@.len(),
                c == connection_name(&command.actor),
                names == channel_names(order@),
                names == by_channel_name(s.channels_of(c)),
                forall|j: int| 0 <= j < i ==> detach_error(s, &command.actor, #[trigger] names[j]) is None,
            decreases order@.len() - i,
        {
            let ghost k = names[i as int];
            if !order[i].belongs_to_application(&command.actor.application_id) {
                proof {
                    assert(order@[i as int]@ == k);
                    assert(detach_error(s, &command.actor, k) == Some((StoreErrorKind::InvalidRequest, different_applications_message())));
                    assert(is_first_failure(s, &command.actor, names, i as int));
                    let f = choose|f: int| is_first_failure(s, &command.actor, names, f);
                    if f < i {
                        assert(detach_error(s, &command.actor, names[f]) is None);
                    }
                    if f > i {
                        assert(detach_error(s, &command.actor, names[i as int]) is None);
                    }
                }
                return Err(ChannelStateStoreError::invalid_request(
                    "channel and connection belong to different applications",
                ));
            }
            match self.find_channel(&order[i]) {
                Some(idx) => {
                    match self.channel_states[idx].check_individual_detach(&command.actor) {
                        Ok(()) => {},
                        Err(e) => {
                            proof {
                                assert(order@[i as int]@ == k);
                                assert(detach_error(s, &command.actor, k) == Some(err_view(e)));
                                assert(is_first_failure(s, &command.actor, names, i as int));
                                let f = choose|f: int| is_first_failure(s, &command.actor, names, f);
                                if f < i {
                                    assert(detach_error(s, &command.actor, names[f]) is None);
                                }
                                if f > i {
                                    assert(detach_error(s, &command.actor, names[i as int]) is None);
                                }
                            }
                            return Err(e);
                        },
                    }
                },
                None => {},
            }
            i = i + 1;
        }
        proof {
            assert(!exists|f: int| is_first_failure(s, &command.actor, names, f));
        }
        let mut transitions: Vec<CommittedChannelTransition> = Vec::new();
        let mut i: usize = 0;
        while i < order.len()
            invariant
                self.wf(),
                i <= order@.len(),
                c == connection_name(&command.actor),
                c == connection@,
                names == by_channel_name(s.channels_of(c)),
                names == channel_names(order@),
                names.no_duplicates(),
                forall|j: int| 0 <= j < names.len() ==> detach_error(s, &command.actor, #[trigger] names[j]) is None,
                self@ == detach_all(s, &command.actor, names.take(i as int)),
                transitions_view(transitions@) == disconnect_transitions(s, &command, names).take(i as int),
            decreases order@.len() - i,
        {
            let ghost cur = self@;
            let ghost k = names[i as int];
            proof {
                assert(!names.take(i as int).contains(k)) by {
                    if names.take(i as int).contains(k) {
                        let j = choose|j: int| 0 <= j < i && names.take(i as int)[j] == k;
                        assert(names[j] == names[i as int]);
                    }
                }
                lemma_detach_all_frame(s, &command.actor, names.take(i as int), k);
                assert(detach_error(cur, &command.actor, k) == detach_error(s, &command.actor, k));
            }
            let channel = order[i].clone();
            let event_id = command.channel_event_id(&channel);
            proof {
                assert(channel@ == k);
                assert(channel_transition(cur, &command.actor, k, command.request_time, event_id)
                    == channel_transition(s, &command.actor, k, command.request_time, event_id));
            }
            let detach = DetachCommand {
                channel,
                actor: command.actor.clone(),
                request_time: command.request_time,
                event_id,
            };
            let result = self.detach(detach);
            match result {
                Ok(transition) => {
                    proof {
                        assert(transition@ == channel_transition(cur, &command.actor, k, command.request_time, event_id));
                        assert(transitions_view(transitions@).len() == i);
                    }
                    transitions.push(transition);
                    proof {
                        assert(names.take(i + 1).drop_last() =~= names.take(i as int));
                        assert(names.take(i + 1).last() == k);
                        assert(self@ == detach_all(s, &command.actor, names.take(i + 1)));
                        assert(transitions@[i as int]@ == disconnect_transitions(s, &command, names)[i as int]);
                        assert(transitions_view(transitions@) =~= disconnect_transitions(s, &command, names).take(i + 1));
                    }
                },
                Err(e) => {
                    proof {
                        assert(false);
                    }
                    return Err(e);
                },
            }
            i = i + 1;
        }
        proof {
            assert(names.take(names.len() as int) =~= names);
            assert(transitions_view(transitions@) =~= disconnect_transitions(s, &command, names));
        }
        self.remove_connection(&connection);
        self.close_ledger(&connection, command.request_time);
        self.sweep_presence_ledgers(command.request_time);
        Ok(transitions)
    }
}

/// What the connection's journal knows of the command's operation.
pub open spec fn journal_lookup(s: StoreView, command: &PresenceBatchCommand) -> LookupView {
    let connection = connection_name(&command.actor.connection_actor);
    if s.ledgers.contains_key(connection) {
        s.ledgers[connection].lookup(command.msg_serial, command.request_fingerprint@)
    } else {
        LookupView::Miss
    }
}

/// Applying a client Presence command: the error, or the store and receipt
/// after it.
///
/// A known operation gets its stored outcome; a different operation under a
/// known serial, a forgotten serial and an unknown operation of a closed
/// connection are refused. Only a new operation reaches the channel, and its
/// outcome, committed or refused, is recorded. An error records nothing.
pub open spec fn spec_apply_presence(s: StoreView, command: &PresenceBatchCommand) -> Result<
    (StoreView, ReceiptView),
    ErrView,
> {
    let actor = command.actor.connection_actor;
    let connection = connection_name(&actor);
    let channel = command.channel@;
    let lookup = journal_lookup(s, command);
    if channel.0 != actor.application_id@ {
        Err((StoreErrorKind::InvalidRequest, different_applications_message()))
    } else {
        match lookup {
            LookupView::Replay(outcome) => Ok((s, ReceiptView { outcome, replayed: true })),
            LookupView::Conflict => Ok(
                (
                    s,
                    ReceiptView {
                        outcome: OutcomeView::Rejected(RejectionView::ConflictingReplay),
                        replayed: false,
                    },
                ),
            ),
            LookupView::Evicted => Ok(
                (
                    s,
                    ReceiptView {
                        outcome: OutcomeView::Rejected(RejectionView::StaleOperation),
                        replayed: false,
                    },
                ),
            ),
            LookupView::Closed => Ok(
                (
                    s,
                    ReceiptView {
                        outcome: OutcomeView::Rejected(RejectionView::ConnectionClosed),
                        replayed: false,
                    },
                ),
            ),
            LookupView::Miss => {
                let applied = if s.channels.contains_key(channel) {
                    spec_apply_presence_batch(s.channels[channel], command)
                } else {
                    Ok((ChannelStateView::empty(), OutcomeView::Rejected(RejectionView::NotAttached)))
                };
                match applied {
                    Err(e) => Err(e),
                    Ok((n, outcome)) => Ok(
                        (
                            StoreView {
                                channels: if s.channels.contains_key(channel) {
                                    s.channels.insert(channel, n)
                                } else {
                                    s.channels
                                },
                                ledgers: s.ledgers.insert(
                                    connection,
                                    ledger_or_fresh(s, connection).record(
                                        RecordView {
                                            serial: command.msg_serial,
                                            fingerprint: command.request_fingerprint@,
                                            outcome,
                                        },
                                    ),
                                ),
                                ..s
                            },
                            ReceiptView { outcome, replayed: false },
                        ),
                    ),
                }
            },
        }
    }
}

impl MemoryStoreState {
    /// Records the outcome of a new operation in the connection's journal.
    fn record_operation(&mut self, connection: &ConnectionKey, serial: u64, record: PresenceOperationRecord)
        requires
            old(self).wf(),
            record_slot(ledger_or_fresh(old(self)@, connection@).records, serial) is None,
        ensures
            final(self).wf(),
            final(self)@ == (StoreView {
                ledgers: old(self)@.ledgers.insert(
                    connection@,
                    ledger_or_fresh(old(self)@, connection@).record(
                        RecordView {
                            serial,
                            fingerprint: record.request_fingerprint@,
                            outcome: record.outcome@,
                        },
                    ),
                ),
                ..old(self)@
            }),
    {
        let ghost s = self@;
        let ghost rv = RecordView {
            serial,
            fingerprint: record.request_fingerprint@,
            outcome: record.outcome@,
        };
        let i = self.ensure_ledger(connection);
        let ghost names = connection_names(self.ledger_keys@);
        let ghost views = ledger_views(self.ledgers@);
        self.ledgers[i].record(serial, record);
        proof {
            let lv = self.ledgers@[i as int]@;
            assert(ledger_views(self.ledgers@) =~= views.update(i as int, lv));
            lemma_keyed_update(names, views, i as int, lv);
            assert(names[i as int] == connection@);
            assert(self@.ledgers =~= s.ledgers.insert(connection@, ledger_or_fresh(s, connection@).record(rv)));
            assert(self@ =~= (StoreView { ledgers: s.ledgers.insert(connection@, ledger_or_fresh(s, connection@).record(rv)), ..s }));
        }
    }

    /// Applies a client Presence command, deduplicated by application,
    /// connection and message serial.
    ///
    /// The journal lookup, the change and the record of its outcome happen in
    /// one step. Both domain outcomes, committed and refused, are recorded; an
    /// infrastructure error is not, so a repeat runs again. Refusals about the
    /// journal itself are not recorded either, so the first record stands.
    pub fn apply_presence(&mut self, command: PresenceBatchCommand) -> (r: Result<
        PresenceMutationReceipt,
        ChannelStateStoreError,
    >)
        requires
            old(self).wf(),
        ensures
            final(self).wf(),
            match (r, spec_apply_presence(old(self)@, &command)) {
                (Ok(receipt), Ok((store, view))) => final(self)@ == store && receipt@ == view,
                (Err(e), Err(v)) => err_view(e) == v && final(self)@ == old(self)@,
                _ => false,
            },
    {
        let ghost s = self@;
        let ghost names = channel_names(self.channel_keys@);
        if !command.channel.belongs_to_application(&command.actor.connection_actor.application_id) {
            return Err(ChannelStateStoreError::invalid_request(
                "channel and connection belong to different applications",
            ));
        }
        let connection = ConnectionKey::of_actor(&command.actor.connection_actor);
        match self.find_ledger(&connection) {
            Some(i) => {
                proof {
                    self.ledgers@[i as int].lemma_view_wf();
                }
                match self.ledgers[i].lookup(command.msg_serial, command.request_fingerprint.as_str()) {
                    LedgerLookup::Replay(outcome) => {
                        return Ok(PresenceMutationReceipt::replayed(outcome));
                    },
                    LedgerLookup::Conflict => {
                        return Ok(PresenceMutationReceipt::fresh(
                            PresenceMutationOutcome::Rejected(PresenceRejection::ConflictingReplay),
                        ));
                    },
                    LedgerLookup::Evicted => {
                        return Ok(PresenceMutationReceipt::fresh(
                            PresenceMutationOutcome::Rejected(PresenceRejection::StaleOperation),
                        ));
                    },
                    LedgerLookup::Closed => {
                        return Ok(PresenceMutationReceipt::fresh(
                            PresenceMutationOutcome::Rejected(PresenceRejection::ConnectionClosed),
                        ));
                    },
                    LedgerLookup::Miss => {},
                }
            },
            None => {},
        }
        let outcome = match self.find_channel(&command.channel) {
            Some(i) => {
                let result = self.channel_states[i].apply_presence_batch(&command);
                match result {
                    Err(e) => {
                        proof {
                            assert(state_views(self.channel_states@) =~= state_views(old(self).channel_states@));
                            assert(self@ =~= s);
                        }
                        return Err(e);
                    },
                    Ok(outcome) => {
                        proof {
                            let n = self.channel_states@[i as int]@;
                            assert(state_views(self.channel_states@) =~= state_views(old(self).channel_states@).update(i as int, n));
                            lemma_keyed_update(names, state_views(old(self).channel_states@), i as int, n);
                            assert(self@ =~= (StoreView { channels: s.channels.insert(command.channel@, n), ..s }));
                        }
                        outcome
                    },
                }
            },
            None => PresenceMutationOutcome::Rejected(PresenceRejection::NotAttached),
        };
        let stored = outcome.clone();
        let serial = command.msg_serial;
        self.record_operation(
            &connection,
            serial,
            PresenceOperationRecord::new(command.request_fingerprint, stored),
        );
        Ok(PresenceMutationReceipt::fresh(outcome))
    }
}
} // verus!

use vstd::prelude::*;

use crate::error::{ChannelStateStoreError, StoreErrorKind};
use crate::ids::{ConnectionActor, ConnectionId};
use crate::commands::PresenceBatchCommand;
use crate::presence_plan::{
    batch_event, batch_plan, lemma_plan_prefix_connection, unique_clients, PlanState,
    PresenceBatchPlan,
};
use crate::transition::{OutcomeView, PresenceMutationOutcome, TransitionView};
use crate::protocol::{
    members_view, Attachment, AttachmentTracking, AttachmentView, ChannelMode, MemberView,
    OccupancyChange, OccupancyMetrics, PresenceMember, PresenceRejection, PresenceSnapshot,
    RejectionView, SnapshotView,
};
use crate::sorting::{same_members, sort_by_client, sorted_by_client};

verus! {

/// A store error as a kind and a message.
pub type ErrView = (StoreErrorKind, Seq<char>);

pub open spec fn err_view(error: ChannelStateStoreError) -> ErrView {
    (error.kind_of(), error.message_of())
}

/// Mathematical content of a channel's state.
pub struct ChannelStateView {
    pub attachments: Seq<AttachmentView>,
    pub members: Seq<MemberView>,
    pub presence_revision: u64,
    pub occupancy_version: u64,
}

/// The attachments of a channel, one per connection.
pub open spec fn unique_connections(attachments: Seq<AttachmentView>) -> bool {
    forall|i: int, j: int|
        0 <= i < attachments.len() && 0 <= j < attachments.len() && i != j
            ==> #[trigger] attachments[i].connection_id != #[trigger] attachments[j].connection_id
}

/// At most one member per connection and client identifier.
pub open spec fn unique_members(members: Seq<MemberView>) -> bool {
    forall|i: int, j: int|
        0 <= i < members.len() && 0 <= j < members.len() && i != j ==> (#[trigger] members[i]).connection_id
            != (#[trigger] members[j]).connection_id || members[i].client_id
            != members[j].client_id
}

/// The position of the connection's attachment, if there is one.
pub open spec fn attachment_slot(attachments: Seq<AttachmentView>, connection: Seq<char>) -> Option<
    int,
> {
    if exists|i: int| 0 <= i < attachments.len() && attachments[i].connection_id == connection {
        Some(choose|i: int| 0 <= i < attachments.len() && attachments[i].connection_id == connection)
    } else {
        None
    }
}

/// The connection holds an attachment with the `Presence` mode.
pub open spec fn presence_attached(attachments: Seq<AttachmentView>, connection: Seq<char>) -> bool {
    exists|i: int|
        0 <= i < attachments.len() && #[trigger] attachments[i].connection_id == connection
            && attachments[i].effective_modes.presence
}

/// The members of one connection, in channel order.
pub open spec fn connection_members(members: Seq<MemberView>, connection: Seq<char>) -> Seq<
    MemberView,
> {
    members.filter(|m: MemberView| m.connection_id == connection)
}

/// The members of all other connections, in channel order.
pub open spec fn other_members(members: Seq<MemberView>, connection: Seq<char>) -> Seq<MemberView> {
    members.filter(|m: MemberView| m.connection_id != connection)
}

/// The number of attachments holding `mode`.
pub open spec fn count_mode(attachments: Seq<AttachmentView>, mode: ChannelMode) -> nat
    decreases attachments.len(),
{
    if attachments.len() == 0 {
        0
    } else {
        count_mode(attachments.drop_last(), mode) + if attachments.last().effective_modes.holds(
            mode,
        ) {
            1nat
        } else {
            0nat
        }
    }
}

pub proof fn lemma_count_mode_bound(attachments: Seq<AttachmentView>, mode: ChannelMode)
    ensures
        count_mode(attachments, mode) <= attachments.len(),
    decreases attachments.len(),
{
    if attachments.len() > 0 {
        lemma_count_mode_bound(attachments.drop_last(), mode);
    }
}

impl ChannelStateView {
    /// The invariant of a channel's state.
    pub open spec fn wf(self) -> bool {
        &&& unique_connections(self.attachments)
        &&& forall|i: int|
            0 <= i < self.attachments.len() ==> (#[trigger] self.attachments[i]).accounting
                == AttachmentTracking::Individual
        &&& unique_members(self.members)
        &&& forall|i: int|
            0 <= i < self.members.len() ==> presence_attached(
                self.attachments,
                (#[trigger] self.members[i]).connection_id,
            )
        &&& self.attachments.len() <= usize::MAX
        &&& self.members.len() <= usize::MAX
    }

    /// The Occupancy counters of the channel.
    pub open spec fn occupancy(self) -> OccupancyMetrics {
        OccupancyMetrics {
            connections: self.attachments.len() as u64,
            publishers: count_mode(self.attachments, ChannelMode::Publish) as u64,
            subscribers: count_mode(self.attachments, ChannelMode::Subscribe) as u64,
            presence_connections: count_mode(self.attachments, ChannelMode::Presence) as u64,
            presence_subscribers: count_mode(self.attachments, ChannelMode::PresenceSubscribe) as u64,
            presence_members: self.members.len() as u64,
        }
    }

    /// The snapshot of the channel.
    pub open spec fn snapshot(self) -> SnapshotView {
        SnapshotView {
            members: self.members,
            presence_revision: self.presence_revision,
            occupancy_version: self.occupancy_version,
            occupancy: self.occupancy(),
        }
    }

    /// The state of a channel nobody has attached to yet.
    pub open spec fn empty() -> Self {
        ChannelStateView {
            attachments: Seq::empty(),
            members: Seq::empty(),
            presence_revision: 0,
            occupancy_version: 0,
        }
    }
}

/// The state of one channel in the local store.
#[derive(Debug)]
pub struct ChannelState {
    /// Attachments to this channel, one per connection.
    attachments: Vec<Attachment>,
    /// Presence members, at most one per connection and client identifier.
    members: Vec<PresenceMember>,
    /// The current revision of the member list.
    presence_revision: u64,
    /// The current version of the Occupancy counters.
    occupancy_version: u64,
}

impl View for ChannelState {
    type V = ChannelStateView;

    closed spec fn view(&self) -> ChannelStateView {
        ChannelStateView {
            attachments: self.attachments@.map_values(|a: Attachment| a@),
            members: members_view(self.members@),
            presence_revision: self.presence_revision,
            occupancy_version: self.occupancy_version,
        }
    }
}

impl ChannelState {
    /// The state of a channel nobody has attached to yet.
    pub fn new() -> (r: Self)
        ensures
            r@ == ChannelStateView::empty(),
            r@.wf(),
    {
        let r = ChannelState {
            attachments: Vec::new(),
            members: Vec::new(),
            presence_revision: 0,
            occupancy_version: 0,
        };
        proof {
            assert(r@.attachments =~= Seq::<AttachmentView>::empty());
            assert(r@.members =~= Seq::<MemberView>::empty());
        }
        r
    }

    fn count_attachments_with(&self, mode: ChannelMode) -> (r: u64)
        ensures
            r == count_mode(self@.attachments, mode),
    {
        let ghost view = self@.attachments;
        let mut count: u64 = 0;
        proof {
            assert(self@.attachments.len() == self.attachments@.len());
        }
        let mut i: usize = 0;
        while i < self.attachments.len()
            invariant
                i <= self.attachments@.len(),
                view == self@.attachments,
                view.len() == self.attachments@.len(),
                count == count_mode(view.take(i as int), mode),
            decreases self.attachments@.len() - i,
        {
            proof {
                assert(view.take(i + 1).drop_last() =~= view.take(i as int));
                lemma_count_mode_bound(view.take(i as int), mode);
            }
            if self.attachments[i].has_mode(mode) {
                count = count + 1;
            }
            i = i + 1;
        }
        proof {
            assert(view.take(i as int) =~= view);
        }
        count
    }

    /// The current Occupancy counters of the channel.
    pub fn occupancy(&self) -> (r: OccupancyMetrics)
        ensures
            r == self@.occupancy(),
    {
        proof {
            assert(self@.attachments.len() == self.attachments@.len());
            assert(self@.members.len() == self.members@.len());
        }
        OccupancyMetrics {
            connections: self.attachments.len() as u64,
            publishers: self.count_attachments_with(ChannelMode::Publish),
            subscribers: self.count_attachments_with(ChannelMode::Subscribe),
            presence_connections: self.count_attachments_with(ChannelMode::Presence),
            presence_subscribers: self.count_attachments_with(ChannelMode::PresenceSubscribe),
            presence_members: self.members.len() as u64,
        }
    }

    /// The current members, versions and Occupancy of the channel.
    pub fn snapshot(&self) -> (r: PresenceSnapshot)
        requires
            self@.wf(),
        ensures
            r@ == self@.snapshot(),
    {
        let members = self.members.clone();
        proof {
            assert(members_view(members@) =~= members_view(self.members@));
        }
        PresenceSnapshot {
            members,
            presence_revision: self.presence_revision,
            occupancy_version: self.occupancy_version,
            occupancy: self.occupancy(),
        }
    }
}

} // verus!

verus! {

/// A filter keeps distinct members distinct.
pub proof fn lemma_filter_unique(s: Seq<MemberView>, pred: spec_fn(MemberView) -> bool)
    requires
        unique_members(s),
    ensures
        unique_members(s.filter(pred)),
        forall|m: MemberView| #[trigger] s.filter(pred).contains(m) ==> s.contains(m) && pred(m),
    decreases s.len(),
{
    broadcast use vstd::seq_lib::group_filter_ensures;

    if s.len() > 0 {
        let t = s.drop_last();
        let x = s.last();
        assert(s =~= t.push(x));
        assert(unique_members(t)) by {
            assert forall|i: int, j: int|
                0 <= i < t.len() && 0 <= j < t.len() && i != j implies (#[trigger] t[i]).connection_id
                != (#[trigger] t[j]).connection_id || t[i].client_id != t[j].client_id by {
                assert(t[i] == s[i] && t[j] == s[j]);
            }
        }
        lemma_filter_unique(t, pred);
        t.lemma_filter_push(x, pred);
        let ft = t.filter(pred);
        if pred(x) {
            let f = ft.push(x);
            assert forall|i: int, j: int|
                0 <= i < f.len() && 0 <= j < f.len() && i != j implies (#[trigger] f[i]).connection_id
                != (#[trigger] f[j]).connection_id || f[i].client_id != f[j].client_id by {
                if i == ft.len() || j == ft.len() {
                    let k = if i == ft.len() { j } else { i };
                    assert(ft.contains(ft[k]));
                    assert(t.contains(ft[k]));
                    let w = choose|w: int| 0 <= w < t.len() && t[w] == ft[k];
                    assert(s[w] == t[w]);
                    assert(s[s.len() - 1] == x);
                }
            }
        }
        assert forall|m: MemberView| #[trigger] s.filter(pred).contains(m) implies s.contains(m)
            && pred(m) by {
            if m != x {
                assert(ft.contains(m));
                assert(t.contains(m));
                let w = choose|w: int| 0 <= w < t.len() && t[w] == m;
                assert(s[w] == m);
            } else {
                assert(s[s.len() - 1] == m);
                if !pred(m) {
                    assert(ft.contains(m));
                }
            }
        }
    }
}

/// Message of the conflict with an attachment owned by another node instance.
pub open spec fn another_node_message(connection: Seq<char>) -> Seq<char> {
    "attachment "@ + connection + " belongs to another node instance"@
}

fn another_node_conflict(connection: &ConnectionId) -> (r: ChannelStateStoreError)
    ensures
        r.kind_of() == StoreErrorKind::Conflict,
        r.message_of() == another_node_message(connection@),
{
    let mut message = "attachment ".to_owned();
    crate::text::push_str(&mut message, connection.as_str());
    crate::text::push_str(&mut message, " belongs to another node instance");
    ChannelStateStoreError::conflict(message)
}

impl ChannelState {
    /// The position of the connection's attachment.
    fn find_attachment(&self, connection: &ConnectionId) -> (r: Option<usize>)
        requires
            self@.wf(),
        ensures
            match r {
                Some(i) => attachment_slot(self@.attachments, connection@) == Some(i as int),
                None => attachment_slot(self@.attachments, connection@) is None,
            },
    {
        let ghost view = self@.attachments;
        let mut i: usize = 0;
        while i < self.attachments.len()
            invariant
                i <= self.attachments@.len(),
                view == self@.attachments,
                unique_connections(view),
                forall|j: int| 0 <= j < i ==> #[trigger] view[j].connection_id != connection@,
            decreases self.attachments@.len() - i,
        {
            if self.attachments[i].connection_id.same_as(connection) {
                proof {
                    assert(view[i as int].connection_id == connection@);
                    let k = choose|k: int|
                        0 <= k < view.len() && view[k].connection_id == connection@;
                    assert(view[k].connection_id == connection@);
                    if k != i as int {
                        assert(view[k].connection_id != view[i as int].connection_id);
                    }
                }
                return Some(i);
            }
            i = i + 1;
        }
        None
    }

    /// Removes the members of one connection and returns them in channel order.
    fn take_connection_members(&mut self, connection: &ConnectionId) -> (r: Vec<PresenceMember>)
        ensures
            final(self)@ == (ChannelStateView {
                members: other_members(old(self)@.members, connection@),
                ..old(self)@
            }),
            members_view(r@) == connection_members(old(self)@.members, connection@),
    {
        let ghost view = self@.members;
        let ghost mine = |m: MemberView| m.connection_id == connection@;
        let ghost others = |m: MemberView| m.connection_id != connection@;
        let mut kept: Vec<PresenceMember> = Vec::new();
        let mut taken: Vec<PresenceMember> = Vec::new();
        let mut all = Vec::new();
        std::mem::swap(&mut all, &mut self.members);
        let mut i: usize = 0;
        proof {
            assert(view.take(0) =~= Seq::<MemberView>::empty());
            reveal(Seq::filter);
            assert(members_view(kept@) =~= view.take(0).filter(others));
            assert(members_view(taken@) =~= view.take(0).filter(mine));
        }
        while i < all.len()
            invariant
                i <= all@.len(),
                view == members_view(all@),
                members_view(kept@) == view.take(i as int).filter(others),
                members_view(taken@) == view.take(i as int).filter(mine),
                self.attachments == old(self).attachments,
                self.presence_revision == old(self).presence_revision,
                self.occupancy_version == old(self).occupancy_version,
                mine == (|m: MemberView| m.connection_id == connection@),
                others == (|m: MemberView| m.connection_id != connection@),
            decreases all@.len() - i,
        {
            let member = all[i].clone();
            let ghost mv = member@;
            proof {
                assert(view.take(i + 1) =~= view.take(i as int).push(mv));
                view.take(i as int).lemma_filter_push(mv, mine);
                view.take(i as int).lemma_filter_push(mv, others);
            }
            if member.connection_id.same_as(connection) {
                taken.push(member);
                proof {
                    assert(members_view(taken@) =~= view.take(i + 1).filter(mine));
                    assert(members_view(kept@) =~= view.take(i + 1).filter(others));
                }
            } else {
                kept.push(member);
                proof {
                    assert(members_view(taken@) =~= view.take(i + 1).filter(mine));
                    assert(members_view(kept@) =~= view.take(i + 1).filter(others));
                }
            }
            i = i + 1;
        }
        proof {
            assert(view.take(all@.len() as int) =~= view);
        }
        self.members = kept;
        proof {
            assert(self@.attachments == old(self)@.attachments);
        }
        taken
    }
}

} // verus!

verus! {

/// Saving the attachment removes the connection's members: it loses the
/// `Presence` mode while members of it are present.
pub open spec fn removes_on_save(s: ChannelStateView, a: AttachmentView) -> bool {
    !a.effective_modes.presence && connection_members(s.members, a.connection_id).len() > 0
}

/// The state after saving an attachment whose checks passed.
pub open spec fn saved_state(s: ChannelStateView, a: AttachmentView) -> ChannelStateView {
    let slot = attachment_slot(s.attachments, a.connection_id);
    let removes = removes_on_save(s, a);
    let mid = ChannelStateView {
        attachments: match slot {
            Some(i) => s.attachments.update(i, a),
            None => s.attachments.push(a),
        },
        members: if removes {
            other_members(s.members, a.connection_id)
        } else {
            s.members
        },
        ..s
    };
    ChannelStateView {
        occupancy_version: if mid.occupancy() != s.occupancy() {
            (s.occupancy_version + 1) as u64
        } else {
            s.occupancy_version
        },
        presence_revision: if removes {
            (s.presence_revision + 1) as u64
        } else {
            s.presence_revision
        },
        ..mid
    }
}

/// Saving an attachment: the refusal, or the state after it.
pub open spec fn spec_save_attachment(s: ChannelStateView, a: AttachmentView) -> Result<
    ChannelStateView,
    ErrView,
> {
    let slot = attachment_slot(s.attachments, a.connection_id);
    if slot is Some && s.attachments[slot->0].node_instance != a.node_instance {
        Err((StoreErrorKind::Conflict, another_node_message(a.connection_id)))
    } else if s.occupancy_version == u64::MAX {
        Err((StoreErrorKind::Internal, "occupancy version overflow"@))
    } else if removes_on_save(s, a) && s.presence_revision == u64::MAX {
        Err((StoreErrorKind::Internal, "presence revision overflow"@))
    } else {
        Ok(saved_state(s, a))
    }
}

/// The result of saving an attachment into a channel.
///
/// A repeated attach may narrow the modes: when the new attachment lost the
/// `Presence` mode, the connection's members are removed by the same
/// transition, with server-generated leaves and one revision.
#[derive(Debug)]
pub struct AttachmentSaved {
    /// The Occupancy change, when the save changed the counters.
    pub occupancy_change: Option<OccupancyChange>,
    /// Members removed because the `Presence` mode was lost, by client identifier.
    pub removed_members: Vec<PresenceMember>,
    /// The new Presence revision, when members were removed.
    pub presence_revision: Option<u64>,
}

impl ChannelState {
    fn next_occupancy_version(&self) -> (r: Result<u64, ChannelStateStoreError>)
        ensures
            match r {
                Ok(v) => self@.occupancy_version < u64::MAX && v == self@.occupancy_version + 1,
                Err(e) => self@.occupancy_version == u64::MAX && err_view(e) == (
                    StoreErrorKind::Internal,
                    "occupancy version overflow"@,
                ),
            },
    {
        match self.occupancy_version.checked_add(1) {
            Some(v) => Ok(v),
            None => Err(ChannelStateStoreError::internal("occupancy version overflow")),
        }
    }

    fn next_presence_revision(&self) -> (r: Result<u64, ChannelStateStoreError>)
        ensures
            match r {
                Ok(v) => self@.presence_revision < u64::MAX && v == self@.presence_revision + 1,
                Err(e) => self@.presence_revision == u64::MAX && err_view(e) == (
                    StoreErrorKind::Internal,
                    "presence revision overflow"@,
                ),
            },
    {
        match self.presence_revision.checked_add(1) {
            Some(v) => Ok(v),
            None => Err(ChannelStateStoreError::internal("presence revision overflow")),
        }
    }

    /// Whether the connection has members in this channel.
    fn has_connection_members(&self, connection: &ConnectionId) -> (r: bool)
        ensures
            r == (connection_members(self@.members, connection@).len() > 0),
    {
        broadcast use vstd::seq_lib::group_filter_ensures;

        let ghost view = self@.members;
        let ghost mine = |m: MemberView| m.connection_id == connection@;
        let mut i: usize = 0;
        while i < self.members.len()
            invariant
                i <= self.members@.len(),
                view == self@.members,
                view.len() == self.members@.len(),
                mine == (|m: MemberView| m.connection_id == connection@),
                forall|j: int| 0 <= j < i ==> #[trigger] view[j].connection_id != connection@,
            decreases self.members@.len() - i,
        {
            if self.members[i].connection_id.same_as(connection) {
                proof {
                    assert(mine(view[i as int]));
                    assert(view.filter(mine).contains(view[i as int]));
                }
                return true;
            }
            i = i + 1;
        }
        proof {
            if view.filter(mine).len() > 0 {
                let x = view.filter(mine)[0];
                assert(mine(x));
                assert(view.filter(mine).contains(x));
                view.lemma_filter_contains_rev(mine, x);
                let w = choose|w: int| 0 <= w < view.len() && view[w] == x;
                assert(view[w].connection_id != connection@);
            }
        }
        false
    }

    /// Saves or replaces the attachment of a connection.
    ///
    /// Returns the Occupancy change when the save changed the counters, and the
    /// members removed when the connection lost the `Presence` mode. Both
    /// versions are checked for overflow before the first change of state.
    pub fn save_attachment(&mut self, attachment: Attachment) -> (r: Result<
        AttachmentSaved,
        ChannelStateStoreError,
    >)
        requires
            old(self)@.wf(),
            attachment.accounting == AttachmentTracking::Individual,
        ensures
            final(self)@.wf(),
            match (r, spec_save_attachment(old(self)@, attachment@)) {
                (Ok(saved), Ok(state)) => {
                    &&& final(self)@ == state
                    &&& saved.occupancy_change == OccupancyChange::spec_between(
                        old(self)@.occupancy(),
                        state.occupancy(),
                    )
                    &&& if removes_on_save(old(self)@, attachment@) {
                        &&& sorted_by_client(members_view(saved.removed_members@))
                        &&& same_members(
                            members_view(saved.removed_members@),
                            connection_members(old(self)@.members, attachment@.connection_id),
                        )
                        &&& saved.presence_revision == Some(state.presence_revision)
                    } else {
                        &&& saved.removed_members@.len() == 0
                        &&& saved.presence_revision is None
                    }
                },
                (Err(e), Err(v)) => err_view(e) == v && final(self)@ == old(self)@,
                _ => false,
            },
    {
        let ghost s = self@;
        let ghost a = attachment@;
        let connection = attachment.connection_id.clone();
        let slot = self.find_attachment(&connection);
        if let Some(i) = slot {
            if !self.attachments[i].node_instance.same_as(&attachment.node_instance) {
                return Err(another_node_conflict(&connection));
            }
        }
        let next_occupancy_version = match self.next_occupancy_version() {
            Ok(v) => v,
            Err(e) => {
                return Err(e);
            },
        };
        let removes = !attachment.has_mode(ChannelMode::Presence) && self.has_connection_members(
            &connection,
        );
        let next_presence_revision = if removes {
            match self.next_presence_revision() {
                Ok(v) => Some(v),
                Err(e) => {
                    return Err(e);
                },
            }
        } else {
            None
        };
        let before = self.occupancy();
        match slot {
            Some(i) => {
                self.attachments.set(i, attachment);
            },
            None => {
                self.attachments.push(attachment);
            },
        }
        proof {
            match slot {
                Some(i) => {
                    assert(self@.attachments =~= s.attachments.update(i as int, a));
                },
                None => {
                    assert(self@.attachments =~= s.attachments.push(a));
                },
            }
        }
        let removed = if removes {
            let taken = self.take_connection_members(&connection);
            proof {
                lemma_filter_unique(s.members, |m: MemberView| m.connection_id == a.connection_id);
                assert(unique_clients(members_view(taken@))) by {
                    let t = members_view(taken@);
                    assert forall|x: int, y: int|
                        0 <= x < t.len() && 0 <= y < t.len() && x != y implies #[trigger] t[x].client_id
                        != #[trigger] t[y].client_id by {
                        assert(t[x].connection_id == a.connection_id) by {
                            assert(t.contains(t[x]));
                        }
                        assert(t[y].connection_id == a.connection_id) by {
                            assert(t.contains(t[y]));
                        }
                    }
                }
            }
            sort_by_client(taken)
        } else {
            Vec::new()
        };
        if let Some(revision) = next_presence_revision {
            self.presence_revision = revision;
        }
        let after = self.occupancy();
        let occupancy_change = OccupancyChange::between(before, after);
        if occupancy_change.is_some() {
            self.occupancy_version = next_occupancy_version;
        }
        let count = self.attachments.len();
        proof {
            assert(count == saved_state(s, a).attachments.len());
            lemma_saved_state_wf(s, a);
            assert(self@ =~= saved_state(s, a));
        }
        Ok(
            AttachmentSaved {
                occupancy_change,
                removed_members: removed,
                presence_revision: next_presence_revision,
            },
        )
    }
}

/// Saving an attachment that passed its checks keeps the channel's invariant.
pub proof fn lemma_saved_state_wf(s: ChannelStateView, a: AttachmentView)
    requires
        s.wf(),
        a.accounting == AttachmentTracking::Individual,
        spec_save_attachment(s, a) is Ok,
        saved_state(s, a).attachments.len() <= usize::MAX,
    ensures
        saved_state(s, a).wf(),
{
    broadcast use vstd::seq_lib::group_filter_ensures;

    let n = saved_state(s, a);
    let slot = attachment_slot(s.attachments, a.connection_id);
    let removes = removes_on_save(s, a);
    assert(unique_connections(n.attachments)) by {
        assert forall|i: int, j: int|
            0 <= i < n.attachments.len() && 0 <= j < n.attachments.len() && i != j implies #[trigger] n.attachments[i].connection_id
            != #[trigger] n.attachments[j].connection_id by {
            match slot {
                Some(k) => {},
                None => {
                    if i == s.attachments.len() {
                        assert(s.attachments[j].connection_id != a.connection_id);
                    } else if j == s.attachments.len() {
                        assert(s.attachments[i].connection_id != a.connection_id);
                    }
                },
            }
        }
    }
    if removes {
        lemma_filter_unique(s.members, |m: MemberView| m.connection_id != a.connection_id);
    }
    assert forall|i: int| 0 <= i < n.members.len() implies presence_attached(
        n.attachments,
        (#[trigger] n.members[i]).connection_id,
    ) by {
        let m = n.members[i];
        if removes {
            let f = other_members(s.members, a.connection_id);
            assert(f.contains(m));
            assert(s.members.contains(m));
        } else {
            assert(s.members.contains(m));
        }
        let w = choose|w: int| 0 <= w < s.members.len() && s.members[w] == m;
        assert(presence_attached(s.attachments, s.members[w].connection_id));
        let k = choose|k: int|
            0 <= k < s.attachments.len() && #[trigger] s.attachments[k].connection_id
                == m.connection_id && s.attachments[k].effective_modes.presence;
        if m.connection_id == a.connection_id {
            assert(connection_members(s.members, a.connection_id).contains(m));
            match slot {
                Some(x) => {
                    assert(n.attachments[x].connection_id == m.connection_id);
                },
                None => {},
            }
        } else {
            assert(n.attachments[k] == s.attachments[k]);
        }
    }
}

} // verus!

verus! {

/// Message of the refusal to remove an aggregated attachment as an individual one.
pub open spec fn aggregated_message() -> Seq<char> {
    "aggregated attachment cannot be removed as individual"@
}

/// Checks that the attachment belongs to the actor's node instance and is individual.
pub open spec fn spec_validate_individual(a: AttachmentView, actor: &ConnectionActor) -> Result<
    (),
    ErrView,
> {
    if a.node_instance != actor.node_instance@ {
        Err((StoreErrorKind::Conflict, another_node_message(actor.connection_id@)))
    } else if a.accounting != AttachmentTracking::Individual {
        Err((StoreErrorKind::Internal, aggregated_message()))
    } else {
        Ok(())
    }
}

/// The state after removing the connection's attachment and members.
pub open spec fn detached_state(s: ChannelStateView, connection: Seq<char>) -> ChannelStateView {
    let i = attachment_slot(s.attachments, connection)->0;
    let has_members = connection_members(s.members, connection).len() > 0;
    ChannelStateView {
        attachments: s.attachments.remove(i),
        members: other_members(s.members, connection),
        presence_revision: if has_members {
            (s.presence_revision + 1) as u64
        } else {
            s.presence_revision
        },
        occupancy_version: (s.occupancy_version + 1) as u64,
    }
}

/// Detaching the actor's connection: the refusal, or the state after it.
pub open spec fn spec_detach(s: ChannelStateView, actor: &ConnectionActor) -> Result<
    ChannelStateView,
    ErrView,
> {
    let connection = actor.connection_id@;
    match attachment_slot(s.attachments, connection) {
        None => Ok(s),
        Some(i) => match spec_validate_individual(s.attachments[i], actor) {
            Err(e) => Err(e),
            Ok(()) => {
                if connection_members(s.members, connection).len() > 0 && s.presence_revision
                    == u64::MAX {
                    Err((StoreErrorKind::Internal, "presence revision overflow"@))
                } else if s.occupancy_version == u64::MAX {
                    Err((StoreErrorKind::Internal, "occupancy version overflow"@))
                } else {
                    Ok(detached_state(s, connection))
                }
            },
        },
    }
}

/// The result of removing an individual attachment.
#[derive(Debug)]
pub enum IndividualDetachOutcome {
    /// The connection was not attached; nothing changed.
    NotAttached { occupancy_version: u64 },
    /// The attachment and the connection's members were removed.
    Detached {
        removed_members: Vec<PresenceMember>,
        presence_revision: Option<u64>,
        occupancy_version: u64,
        occupancy_change: OccupancyChange,
    },
}

fn validate_individual_detach(attachment: &Attachment, actor: &ConnectionActor) -> (r: Result<
    (),
    ChannelStateStoreError,
>)
    ensures
        match (r, spec_validate_individual(attachment@, actor)) {
            (Ok(()), Ok(())) => true,
            (Err(e), Err(v)) => err_view(e) == v,
            _ => false,
        },
{
    if !attachment.node_instance.same_as(&actor.node_instance) {
        return Err(another_node_conflict(&actor.connection_id));
    }
    if !attachment.is_individual() {
        return Err(
            ChannelStateStoreError::internal(
                "aggregated attachment cannot be removed as individual",
            ),
        );
    }
    Ok(())
}

/// Removing a connection keeps the channel's invariant.
pub proof fn lemma_detached_state_wf(s: ChannelStateView, connection: Seq<char>)
    requires
        s.wf(),
        attachment_slot(s.attachments, connection) is Some,
    ensures
        detached_state(s, connection).wf(),
{
    broadcast use vstd::seq_lib::group_filter_ensures;

    let n = detached_state(s, connection);
    let i = attachment_slot(s.attachments, connection)->0;
    assert(s.attachments[i].connection_id == connection);
    s.attachments.remove_ensures(i);
    lemma_filter_unique(s.members, |m: MemberView| m.connection_id != connection);
    assert(unique_connections(n.attachments)) by {
        assert forall|x: int, y: int|
            0 <= x < n.attachments.len() && 0 <= y < n.attachments.len() && x != y implies #[trigger] n.attachments[x].connection_id
            != #[trigger] n.attachments[y].connection_id by {
            let x0 = if x < i { x } else { x + 1 };
            let y0 = if y < i { y } else { y + 1 };
            assert(n.attachments[x] == s.attachments[x0]);
            assert(n.attachments[y] == s.attachments[y0]);
        }
    }
    assert forall|x: int| 0 <= x < n.attachments.len() implies (#[trigger] n.attachments[x]).accounting
        == AttachmentTracking::Individual by {
        let x0 = if x < i { x } else { x + 1 };
        assert(n.attachments[x] == s.attachments[x0]);
    }
    assert forall|x: int| 0 <= x < n.members.len() implies presence_attached(
        n.attachments,
        (#[trigger] n.members[x]).connection_id,
    ) by {
        let m = n.members[x];
        assert(other_members(s.members, connection).contains(m));
        assert(s.members.contains(m));
        let w = choose|w: int| 0 <= w < s.members.len() && s.members[w] == m;
        assert(presence_attached(s.attachments, s.members[w].connection_id));
        let k = choose|k: int|
            0 <= k < s.attachments.len() && #[trigger] s.attachments[k].connection_id
                == m.connection_id && s.attachments[k].effective_modes.presence;
        assert(k != i);
        let k0 = if k < i { k } else { k - 1 };
        assert(n.attachments[k0] == s.attachments[k]);
    }
}

/// Removing an individual attachment lowers the number of connections.
pub proof fn lemma_detach_changes_occupancy(s: ChannelStateView, connection: Seq<char>)
    requires
        s.wf(),
        attachment_slot(s.attachments, connection) is Some,
    ensures
        detached_state(s, connection).occupancy() != s.occupancy(),
{
    let i = attachment_slot(s.attachments, connection)->0;
    assert(detached_state(s, connection).attachments.len() == s.attachments.len() - 1);
}

impl ChannelState {
    /// Checks that an individual detach of the actor would succeed.
    ///
    /// Used before disconnecting a connection from several channels at once.
    pub fn check_individual_detach(&self, actor: &ConnectionActor) -> (r: Result<
        (),
        ChannelStateStoreError,
    >)
        requires
            self@.wf(),
        ensures
            match (r, spec_detach(self@, actor)) {
                (Ok(()), Ok(_)) => true,
                (Err(e), Err(v)) => err_view(e) == v,
                _ => false,
            },
    {
        let slot = self.find_attachment(&actor.connection_id);
        let i = match slot {
            None => {
                return Ok(());
            },
            Some(i) => i,
        };
        match validate_individual_detach(&self.attachments[i], actor) {
            Ok(()) => {},
            Err(e) => {
                return Err(e);
            },
        }
        if self.has_connection_members(&actor.connection_id) {
            match self.next_presence_revision() {
                Ok(_) => {},
                Err(e) => {
                    return Err(e);
                },
            }
        }
        match self.next_occupancy_version() {
            Ok(_) => {},
            Err(e) => {
                return Err(e);
            },
        }
        Ok(())
    }

    /// Removes the actor's individual attachment and all members of its connection.
    ///
    /// A missing attachment is a successful detach without changes. Both
    /// versions are checked for overflow before the first change of state.
    pub fn detach_individual(&mut self, actor: &ConnectionActor) -> (r: Result<
        IndividualDetachOutcome,
        ChannelStateStoreError,
    >)
        requires
            old(self)@.wf(),
        ensures
            final(self)@.wf(),
            match (r, spec_detach(old(self)@, actor)) {
                (Ok(outcome), Ok(state)) => {
                    &&& final(self)@ == state
                    &&& match outcome {
                        IndividualDetachOutcome::NotAttached { occupancy_version } => {
                            &&& attachment_slot(old(self)@.attachments, actor.connection_id@) is None
                            &&& occupancy_version == old(self)@.occupancy_version
                        },
                        IndividualDetachOutcome::Detached {
                            removed_members,
                            presence_revision,
                            occupancy_version,
                            occupancy_change,
                        } => {
                            &&& attachment_slot(old(self)@.attachments, actor.connection_id@) is Some
                            &&& sorted_by_client(members_view(removed_members@))
                            &&& same_members(
                                members_view(removed_members@),
                                connection_members(old(self)@.members, actor.connection_id@),
                            )
                            &&& presence_revision == if removed_members@.len() > 0 {
                                Some(state.presence_revision)
                            } else {
                                None
                            }
                            &&& occupancy_version == state.occupancy_version
                            &&& Some(occupancy_change) == OccupancyChange::spec_between(
                                old(self)@.occupancy(),
                                state.occupancy(),
                            )
                        },
                    }
                },
                (Err(e), Err(v)) => err_view(e) == v && final(self)@ == old(self)@,
                _ => false,
            },
    {
        let ghost s = self@;
        let slot = self.find_attachment(&actor.connection_id);
        let i = match slot {
            None => {
                return Ok(
                    IndividualDetachOutcome::NotAttached { occupancy_version: self.occupancy_version },
                );
            },
            Some(i) => i,
        };
        match validate_individual_detach(&self.attachments[i], actor) {
            Ok(()) => {},
            Err(e) => {
                return Err(e);
            },
        }
        let has_members = self.has_connection_members(&actor.connection_id);
        let next_presence_revision = if has_members {
            match self.next_presence_revision() {
                Ok(v) => Some(v),
                Err(e) => {
                    return Err(e);
                },
            }
        } else {
            None
        };
        let next_occupancy_version = match self.next_occupancy_version() {
            Ok(v) => v,
            Err(e) => {
                return Err(e);
            },
        };
        let before = self.occupancy();
        self.attachments.remove(i);
        proof {
            assert(self@.attachments =~= s.attachments.remove(i as int));
        }
        let taken = self.take_connection_members(&actor.connection_id);
        proof {
            lemma_filter_unique(s.members, |m: MemberView| m.connection_id == actor.connection_id@);
            assert(unique_clients(members_view(taken@))) by {
                let t = members_view(taken@);
                assert forall|x: int, y: int|
                    0 <= x < t.len() && 0 <= y < t.len() && x != y implies #[trigger] t[x].client_id
                    != #[trigger] t[y].client_id by {
                    assert(t.contains(t[x]));
                    assert(t.contains(t[y]));
                }
            }
        }
        let removed_members = sort_by_client(taken);
        if let Some(revision) = next_presence_revision {
            self.presence_revision = revision;
        }
        self.occupancy_version = next_occupancy_version;
        let after = self.occupancy();
        proof {
            assert(self@ =~= detached_state(s, actor.connection_id@));
            lemma_detached_state_wf(s, actor.connection_id@);
            lemma_detach_changes_occupancy(s, actor.connection_id@);
        }
        let occupancy_change = match OccupancyChange::between(before, after) {
            Some(change) => change,
            None => {
                return Err(ChannelStateStoreError::internal("detach did not change occupancy"));
            },
        };
        Ok(
            IndividualDetachOutcome::Detached {
                removed_members,
                presence_revision: next_presence_revision,
                occupancy_version: next_occupancy_version,
                occupancy_change,
            },
        )
    }
}

} // verus!

verus! {

/// Whether the actor may change Presence here: the domain refusal, the
/// ownership error, or `Ok(Ok(()))`.
pub open spec fn spec_check_presence_attachment(s: ChannelStateView, actor: &ConnectionActor) -> Result<
    Result<(), RejectionView>,
    ErrView,
> {
    match attachment_slot(s.attachments, actor.connection_id@) {
        None => Ok(Err(RejectionView::NotAttached)),
        Some(i) => match spec_validate_individual(s.attachments[i], actor) {
            Err(e) => Err(e),
            Ok(()) => if s.attachments[i].effective_modes.presence {
                Ok(Ok(()))
            } else {
                Ok(Err(RejectionView::PresenceModeNotEnabled))
            },
        },
    }
}

/// Message of the refusal of an empty batch.
pub open spec fn empty_batch_message() -> Seq<char> {
    "presence batch must contain at least one item"@
}

/// The channel after committing a plan.
pub open spec fn batch_state(
    s: ChannelStateView,
    command: &PresenceBatchCommand,
    plan: PlanState,
) -> ChannelStateView {
    let connection = command.actor.connection_actor.connection_id@;
    ChannelStateView {
        members: other_members(s.members, connection) + plan.members,
        presence_revision: (s.presence_revision + 1) as u64,
        occupancy_version: if plan.members.len() != connection_members(
            s.members,
            connection,
        ).len() {
            (s.occupancy_version + 1) as u64
        } else {
            s.occupancy_version
        },
        ..s
    }
}

/// Applying a batch: the error, or the state and domain outcome after it.
///
/// The batch is either committed whole with one revision and one event, or
/// refused without changes.
pub open spec fn spec_apply_presence_batch(s: ChannelStateView, command: &PresenceBatchCommand) -> Result<
    (ChannelStateView, OutcomeView),
    ErrView,
> {
    let actor = command.actor.connection_actor;
    let connection = actor.connection_id@;
    if command.items@.len() == 0 {
        Err((StoreErrorKind::InvalidRequest, empty_batch_message()))
    } else {
        match spec_check_presence_attachment(s, &actor) {
            Err(e) => Err(e),
            Ok(Err(rejection)) => Ok((s, OutcomeView::Rejected(rejection))),
            Ok(Ok(())) => {
                if s.presence_revision == u64::MAX {
                    Err((StoreErrorKind::Internal, "presence revision overflow"@))
                } else {
                    let revision = (s.presence_revision + 1) as u64;
                    let current = connection_members(s.members, connection);
                    match batch_plan(command, revision, current) {
                        Err(rejection) => Ok((s, OutcomeView::Rejected(rejection))),
                        Ok(plan) => {
                            if plan.members.len() != current.len() && s.occupancy_version
                                == u64::MAX {
                                Err((StoreErrorKind::Internal, "occupancy version overflow"@))
                            } else {
                                let n = batch_state(s, command, plan);
                                Ok(
                                    (
                                        n,
                                        OutcomeView::Committed(
                                            TransitionView::Changed(
                                                batch_event(
                                                    command,
                                                    revision,
                                                    n.occupancy_version,
                                                    plan.changes,
                                                    OccupancyChange::spec_between(
                                                        s.occupancy(),
                                                        n.occupancy(),
                                                    ),
                                                ),
                                            ),
                                        ),
                                    ),
                                )
                            }
                        },
                    }
                }
            },
        }
    }
}

/// Committing a plan keeps the channel's invariant.
pub proof fn lemma_batch_state_wf(
    s: ChannelStateView,
    command: &PresenceBatchCommand,
    plan: PlanState,
)
    requires
        s.wf(),
        presence_attached(s.attachments, command.actor.connection_actor.connection_id@),
        unique_clients(plan.members),
        forall|i: int|
            0 <= i < plan.members.len() ==> (#[trigger] plan.members[i]).connection_id
                == command.actor.connection_actor.connection_id@,
        batch_state(s, command, plan).members.len() <= usize::MAX,
    ensures
        batch_state(s, command, plan).wf(),
{
    broadcast use vstd::seq_lib::group_filter_ensures;

    let connection = command.actor.connection_actor.connection_id@;
    let n = batch_state(s, command, plan);
    let others = other_members(s.members, connection);
    lemma_filter_unique(s.members, |m: MemberView| m.connection_id != connection);
    assert(unique_members(n.members)) by {
        assert forall|x: int, y: int|
            0 <= x < n.members.len() && 0 <= y < n.members.len() && x != y implies (#[trigger] n.members[x]).connection_id
            != (#[trigger] n.members[y]).connection_id || n.members[x].client_id
            != n.members[y].client_id by {
            if x < others.len() && y >= others.len() {
                assert(others.contains(others[x]));
                assert(n.members[y] == plan.members[y - others.len()]);
            } else if x >= others.len() && y < others.len() {
                assert(others.contains(others[y]));
                assert(n.members[x] == plan.members[x - others.len()]);
            } else if x >= others.len() && y >= others.len() {
                assert(n.members[x] == plan.members[x - others.len()]);
                assert(n.members[y] == plan.members[y - others.len()]);
            } else {
                assert(n.members[x] == others[x]);
                assert(n.members[y] == others[y]);
            }
        }
    }
    assert forall|x: int| 0 <= x < n.members.len() implies presence_attached(
        n.attachments,
        (#[trigger] n.members[x]).connection_id,
    ) by {
        if x < others.len() {
            let m = others[x];
            assert(others.contains(m));
            assert(s.members.contains(m));
            let w = choose|w: int| 0 <= w < s.members.len() && s.members[w] == m;
            assert(presence_attached(s.attachments, s.members[w].connection_id));
        } else {
            assert(n.members[x] == plan.members[x - others.len()]);
        }
    }
}

impl ChannelState {
    /// Checks that the connection may change Presence in this channel.
    ///
    /// The outer `Err` is an ownership violation (infrastructure); the inner
    /// one is a domain refusal for the client.
    fn check_presence_attachment(&self, actor: &ConnectionActor) -> (r: Result<
        Result<(), PresenceRejection>,
        ChannelStateStoreError,
    >)
        requires
            self@.wf(),
        ensures
            match (r, spec_check_presence_attachment(self@, actor)) {
                (Ok(Ok(())), Ok(Ok(()))) => true,
                (Ok(Err(a)), Ok(Err(b))) => a@ == b,
                (Err(e), Err(v)) => err_view(e) == v,
                _ => false,
            },
    {
        let i = match self.find_attachment(&actor.connection_id) {
            None => {
                return Ok(Err(PresenceRejection::NotAttached));
            },
            Some(i) => i,
        };
        match validate_individual_detach(&self.attachments[i], actor) {
            Ok(()) => {},
            Err(e) => {
                return Err(e);
            },
        }
        if !self.attachments[i].has_mode(ChannelMode::Presence) {
            return Ok(Err(PresenceRejection::PresenceModeNotEnabled));
        }
        Ok(Ok(()))
    }

    /// Copies the members of one connection, in channel order.
    fn connection_members_copy(&self, connection: &ConnectionId) -> (r: Vec<PresenceMember>)
        ensures
            members_view(r@) == connection_members(self@.members, connection@),
    {
        let ghost view = self@.members;
        let ghost mine = |m: MemberView| m.connection_id == connection@;
        let mut taken: Vec<PresenceMember> = Vec::new();
        let mut i: usize = 0;
        proof {
            assert(view.take(0) =~= Seq::<MemberView>::empty());
            reveal(Seq::filter);
            assert(members_view(taken@) =~= view.take(0).filter(mine));
        }
        while i < self.members.len()
            invariant
                i <= self.members@.len(),
                view == self@.members,
                view.len() == self.members@.len(),
                members_view(taken@) == view.take(i as int).filter(mine),
                mine == (|m: MemberView| m.connection_id == connection@),
            decreases self.members@.len() - i,
        {
            proof {
                assert(view.take(i + 1) =~= view.take(i as int).push(view[i as int]));
                view.take(i as int).lemma_filter_push(view[i as int], mine);
            }
            if self.members[i].connection_id.same_as(connection) {
                let member = self.members[i].clone();
                taken.push(member);
                proof {
                    assert(members_view(taken@) =~= view.take(i + 1).filter(mine));
                }
            }
            i = i + 1;
        }
        proof {
            assert(view.take(self.members@.len() as int) =~= view);
        }
        taken
    }

    /// Applies a batch of client Presence actions of one connection.
    ///
    /// A domain refusal is `Ok(Rejected)`, an infrastructure error is `Err`.
    pub fn apply_presence_batch(&mut self, command: &PresenceBatchCommand) -> (r: Result<
        PresenceMutationOutcome,
        ChannelStateStoreError,
    >)
        requires
            old(self)@.wf(),
        ensures
            final(self)@.wf(),
            match (r, spec_apply_presence_batch(old(self)@, command)) {
                (Ok(outcome), Ok((state, view))) => final(self)@ == state && outcome@ == view,
                (Err(e), Err(v)) => err_view(e) == v && final(self)@ == old(self)@,
                _ => false,
            },
    {
        broadcast use vstd::seq_lib::group_filter_ensures;

        let ghost s = self@;
        if command.items.len() == 0 {
            return Err(
                ChannelStateStoreError::invalid_request(
                    "presence batch must contain at least one item",
                ),
            );
        }
        let actor = &command.actor.connection_actor;
        match self.check_presence_attachment(actor) {
            Err(e) => {
                return Err(e);
            },
            Ok(Err(rejection)) => {
                return Ok(PresenceMutationOutcome::Rejected(rejection));
            },
            Ok(Ok(())) => {},
        }
        let revision = match self.next_presence_revision() {
            Ok(v) => v,
            Err(e) => {
                return Err(e);
            },
        };
        let current = self.connection_members_copy(&actor.connection_id);
        let current_count = current.len();
        let ghost current_view = members_view(current@);
        proof {
            lemma_filter_unique(s.members, |m: MemberView| m.connection_id == actor.connection_id@);
            assert(unique_clients(current_view)) by {
                assert forall|x: int, y: int|
                    0 <= x < current_view.len() && 0 <= y < current_view.len() && x != y implies #[trigger] current_view[x].client_id
                    != #[trigger] current_view[y].client_id by {
                    assert(current_view.contains(current_view[x]));
                    assert(current_view.contains(current_view[y]));
                }
            }
            assert forall|x: int| 0 <= x < current_view.len() implies (
            #[trigger] current_view[x]).connection_id == actor.connection_id@ by {
                assert(current_view.contains(current_view[x]));
            }
            lemma_plan_prefix_connection(command, revision, current_view, command.items@.len());
        }
        let plan = match PresenceBatchPlan::build(command, current, revision) {
            Ok(plan) => plan,
            Err(rejection) => {
                return Ok(PresenceMutationOutcome::Rejected(rejection));
            },
        };
        let next_occupancy_version = if plan.member_count() != current_count {
            match self.next_occupancy_version() {
                Ok(v) => Some(v),
                Err(e) => {
                    return Err(e);
                },
            }
        } else {
            None
        };
        let ghost plan_state = plan.state();
        let before = self.occupancy();
        let (members, delta) = plan.into_parts();
        let _ = self.take_connection_members(&actor.connection_id);
        let mut members = members;
        let ghost kept = members_view(self.members@);
        self.members.append(&mut members);
        proof {
            assert(members_view(self.members@) =~= kept + plan_state.members);
        }
        self.presence_revision = delta.presence_revision();
        if let Some(version) = next_occupancy_version {
            self.occupancy_version = version;
        }
        let count = self.members.len();
        proof {
            assert(self@ =~= batch_state(s, command, plan_state));
            assert(presence_attached(s.attachments, actor.connection_id@)) by {
                let i = attachment_slot(s.attachments, actor.connection_id@)->0;
                assert(s.attachments[i].connection_id == actor.connection_id@);
            }
            lemma_batch_state_wf(s, command, plan_state);
        }
        let after = self.occupancy();
        let occupancy = OccupancyChange::between(before, after);
        Ok(
            PresenceMutationOutcome::Committed(
                delta.into_transition(command, self.occupancy_version, occupancy),
            ),
        )
    }
}

} // verus!

use vstd::prelude::*;

use crate::commands::{client_message_id, PresenceBatchCommand};
use crate::json::clone_data;
use crate::protocol::{
    changes_view, members_view, ChannelChangeView, CommittedPresenceEvent, EventView,
    MemberChangeView, MemberView, OccupancyChange, PresenceChangeAction, PresenceChannelChanged,
    PresenceMember, PresenceMemberChange, PresenceMutationAction, PresenceRejection,
    RejectionView,
};
use crate::transition::{CommittedChannelTransition, TransitionView};
use crate::text::same_text;

verus! {

/// No two members share a client identifier.
pub open spec fn unique_clients(members: Seq<MemberView>) -> bool {
    forall|i: int, j: int|
        0 <= i < members.len() && 0 <= j < members.len() && i != j ==> #[trigger] members[i].client_id
            != #[trigger] members[j].client_id
}

/// The position of the member with `client_id`, if there is one.
pub open spec fn member_slot(members: Seq<MemberView>, client_id: Seq<char>) -> Option<int> {
    if exists|i: int| 0 <= i < members.len() && members[i].client_id == client_id {
        Some(choose|i: int| 0 <= i < members.len() && members[i].client_id == client_id)
    } else {
        None
    }
}

/// The canonical change for a client action, given whether the member is present.
///
/// A repeated `ENTER` of a present member updates it; `UPDATE` and `LEAVE` of an
/// absent member are refused.
pub open spec fn spec_resolve_action(action: PresenceMutationAction, is_present: bool) -> Result<
    PresenceChangeAction,
    RejectionView,
> {
    match (action, is_present) {
        (PresenceMutationAction::Enter, false) => Ok(PresenceChangeAction::Enter),
        (PresenceMutationAction::Enter, true) => Ok(PresenceChangeAction::Update),
        (PresenceMutationAction::Update, true) => Ok(PresenceChangeAction::Update),
        (PresenceMutationAction::Leave, true) => Ok(PresenceChangeAction::Leave),
        (PresenceMutationAction::Update, false) => Err(RejectionView::InvalidMemberState),
        (PresenceMutationAction::Leave, false) => Err(RejectionView::InvalidMemberState),
    }
}

/// Members and changes of a plan after some of its items.
pub struct PlanState {
    pub members: Seq<MemberView>,
    pub changes: Seq<MemberChangeView>,
}

/// The member an `ENTER` or `UPDATE` of item `index` writes.
pub open spec fn written_member(
    command: &PresenceBatchCommand,
    revision: u64,
    index: nat,
    client_id: Seq<char>,
) -> MemberView {
    let actor = command.actor.connection_actor;
    MemberView {
        connection_id: actor.connection_id@,
        client_id,
        node_instance: actor.node_instance@,
        data: command.items@[index as int].data,
        last_message_id: client_message_id(actor.connection_id@, command.msg_serial, index),
        presence_revision: revision,
        updated_at: command.request_time,
    }
}

/// Applies item `index` of the batch to a plan state.
pub open spec fn plan_step(
    command: &PresenceBatchCommand,
    revision: u64,
    index: nat,
    state: PlanState,
) -> Result<PlanState, RejectionView> {
    let item = command.items@[index as int]@;
    let actor = command.actor.connection_actor;
    match item.client_id {
        None => Err(RejectionView::UnidentifiedConnection),
        Some(client_id) => {
            if !command.actor.client_id_policy@.permits(client_id) {
                Err(RejectionView::ClientIdNotAllowed { client_id })
            } else {
                let slot = member_slot(state.members, client_id);
                match spec_resolve_action(item.action, slot is Some) {
                    Err(rejection) => Err(rejection),
                    Ok(action) => {
                        let (members, data) = match action {
                            PresenceChangeAction::Leave => (
                                state.members.remove(slot->0),
                                if item.data is Some {
                                    item.data
                                } else {
                                    state.members[slot->0].data
                                },
                            ),
                            _ => {
                                let member = written_member(command, revision, index, client_id);
                                (
                                    match slot {
                                        Some(i) => state.members.update(i, member),
                                        None => state.members.push(member),
                                    },
                                    item.data,
                                )
                            },
                        };
                        Ok(
                            PlanState {
                                members,
                                changes: state.changes.push(
                                    MemberChangeView {
                                        action,
                                        connection_id: actor.connection_id@,
                                        client_id,
                                        data,
                                        message_id: client_message_id(
                                            actor.connection_id@,
                                            command.msg_serial,
                                            index,
                                        ),
                                        timestamp: command.request_time,
                                    },
                                ),
                            },
                        )
                    },
                }
            }
        },
    }
}

/// The plan after the first `n` items, or the first refusal.
pub open spec fn plan_prefix(
    command: &PresenceBatchCommand,
    revision: u64,
    current: Seq<MemberView>,
    n: nat,
) -> Result<PlanState, RejectionView>
    decreases n,
{
    if n == 0 {
        Ok(PlanState { members: current, changes: Seq::empty() })
    } else {
        match plan_prefix(command, revision, current, (n - 1) as nat) {
            Err(rejection) => Err(rejection),
            Ok(state) => plan_step(command, revision, (n - 1) as nat, state),
        }
    }
}

/// The plan of the whole batch over the connection's current members.
pub open spec fn batch_plan(
    command: &PresenceBatchCommand,
    revision: u64,
    current: Seq<MemberView>,
) -> Result<PlanState, RejectionView> {
    plan_prefix(command, revision, current, command.items@.len())
}

/// The position of the member with `client_id`.
pub fn find_client(members: &Vec<PresenceMember>, client_id: &str) -> (r: Option<usize>)
    requires
        unique_clients(members_view(members@)),
    ensures
        match r {
            Some(i) => member_slot(members_view(members@), client_id@) == Some(i as int),
            None => member_slot(members_view(members@), client_id@) is None,
        },
{
    let ghost view = members_view(members@);
    let mut i: usize = 0;
    while i < members.len()
        invariant
            i <= members@.len(),
            view == members_view(members@),
            unique_clients(view),
            forall|j: int| 0 <= j < i ==> #[trigger] view[j].client_id != client_id@,
        decreases members@.len() - i,
    {
        if same_text(members[i].client_id.as_str(), client_id) {
            assert(view[i as int].client_id == client_id@);
            proof {
                let k = choose|k: int| 0 <= k < view.len() && view[k].client_id == client_id@;
                assert(view[k].client_id == client_id@);
                if k != i as int {
                    assert(view[k].client_id != view[i as int].client_id);
                }
            }
            return Some(i);
        }
        i = i + 1;
    }
    None
}

/// A checked but not yet committed batch of Presence actions of one connection.
///
/// It works on a copy of the connection's members; the channel does not change
/// until every item has passed its checks.
#[derive(Debug)]
pub struct PresenceBatchPlan {
    /// The connection's members after all items.
    members: Vec<PresenceMember>,
    /// Canonical changes in the order of the items.
    member_changes: Vec<PresenceMemberChange>,
    /// The Presence revision the committed batch receives.
    presence_revision: u64,
}

/// Canonical changes of a committed batch, waiting to become an event.
#[derive(Debug)]
pub struct PresenceBatchDelta {
    pub member_changes: Vec<PresenceMemberChange>,
    pub presence_revision: u64,
}

/// The event of a committed batch.
pub open spec fn batch_event(
    command: &PresenceBatchCommand,
    revision: u64,
    occupancy_version: u64,
    changes: Seq<MemberChangeView>,
    occupancy: Option<OccupancyChange>,
) -> EventView {
    EventView {
        event_id: command.event_id,
        change: ChannelChangeView {
            channel: command.channel@,
            origin: command.actor.connection_actor.node_instance@,
            presence_revision: Some(revision),
            occupancy_version,
            member_changes: changes,
            occupancy,
            occurred_at: command.request_time,
        },
    }
}

impl PresenceBatchDelta {
    pub fn presence_revision(&self) -> (r: u64)
        ensures
            r == self.presence_revision,
    {
        self.presence_revision
    }

    /// The transition of the committed batch, given the channel's final state.
    pub fn into_transition(
        self,
        command: &PresenceBatchCommand,
        occupancy_version: u64,
        occupancy: Option<OccupancyChange>,
    ) -> (r: CommittedChannelTransition)
        ensures
            r@ == TransitionView::Changed(
                batch_event(
                    command,
                    self.presence_revision,
                    occupancy_version,
                    changes_view(self.member_changes@),
                    occupancy,
                ),
            ),
    {
        let event = CommittedPresenceEvent::new(
            command.event_id,
            PresenceChannelChanged {
                channel: command.channel.clone(),
                origin: command.actor.connection_actor.node_instance.clone(),
                presence_revision: Some(self.presence_revision),
                occupancy_version,
                member_changes: self.member_changes,
                occupancy,
                occurred_at: command.request_time,
            },
        );
        CommittedChannelTransition::Changed(event)
    }
}

impl PresenceBatchPlan {
    pub closed spec fn state(&self) -> PlanState {
        PlanState {
            members: members_view(self.members@),
            changes: changes_view(self.member_changes@),
        }
    }

    pub closed spec fn revision(&self) -> u64 {
        self.presence_revision
    }

    /// The canonical change for a client action, given whether the member is present.
    pub fn resolve_action(action: PresenceMutationAction, is_present: bool) -> (r: Result<
        PresenceChangeAction,
        PresenceRejection,
    >)
        ensures
            match (r, spec_resolve_action(action, is_present)) {
                (Ok(a), Ok(b)) => a == b,
                (Err(a), Err(b)) => a@ == b,
                _ => false,
            },
    {
        match (action, is_present) {
            (PresenceMutationAction::Enter, false) => Ok(PresenceChangeAction::Enter),
            (PresenceMutationAction::Enter, true) => Ok(PresenceChangeAction::Update),
            (PresenceMutationAction::Update, true) => Ok(PresenceChangeAction::Update),
            (PresenceMutationAction::Leave, true) => Ok(PresenceChangeAction::Leave),
            (PresenceMutationAction::Update, false) => Err(PresenceRejection::InvalidMemberState),
            (PresenceMutationAction::Leave, false) => Err(PresenceRejection::InvalidMemberState),
        }
    }

    /// The number of the connection's members after the plan.
    pub fn member_count(&self) -> (r: usize)
        ensures
            r == self.state().members.len(),
    {
        proof {
            assert(self.state().members.len() == self.members@.len());
        }
        self.members.len()
    }

    /// Applies item `index` of the batch to the working copy.
    fn apply_item(&mut self, command: &PresenceBatchCommand, index: usize) -> (r: Result<
        (),
        PresenceRejection,
    >)
        requires
            index < command.items@.len(),
            unique_clients(old(self).state().members),
        ensures
            final(self).revision() == old(self).revision(),
            match (r, plan_step(command, old(self).revision(), index as nat, old(self).state())) {
                (Ok(()), Ok(state)) => final(self).state() == state && unique_clients(
                    state.members,
                ),
                (Err(a), Err(b)) => a@ == b && final(self).state() == old(self).state(),
                _ => false,
            },
    {
        let item = &command.items[index];
        let actor = &command.actor.connection_actor;
        let ghost before = self.state();
        let client_id = match &item.client_id {
            Some(id) => id,
            None => {
                return Err(PresenceRejection::UnidentifiedConnection);
            },
        };
        if !command.actor.client_id_policy.allows(client_id.as_str()) {
            return Err(PresenceRejection::ClientIdNotAllowed { client_id: client_id.clone() });
        }
        let slot = find_client(&self.members, client_id.as_str());
        let action = match Self::resolve_action(item.action, slot.is_some()) {
            Ok(action) => action,
            Err(rejection) => {
                return Err(rejection);
            },
        };
        let message_id = command.message_id(index);
        let data = match action {
            PresenceChangeAction::Leave => {
                let i = slot.unwrap();
                let previous = self.members.remove(i);
                proof {
                    assert(members_view(self.members@) =~= before.members.remove(i as int));
                }
                match &item.data {
                    Some(_) => clone_data(&item.data),
                    None => previous.data,
                }
            },
            _ => {
                let member = PresenceMember {
                    connection_id: actor.connection_id.clone(),
                    client_id: client_id.clone(),
                    node_instance: actor.node_instance.clone(),
                    data: clone_data(&item.data),
                    last_message_id: message_id.clone(),
                    presence_revision: self.presence_revision,
                    updated_at: command.request_time,
                };
                let ghost written = member@;
                match slot {
                    Some(i) => {
                        self.members.set(i, member);
                        proof {
                            assert(members_view(self.members@) =~= before.members.update(
                                i as int,
                                written,
                            ));
                        }
                    },
                    None => {
                        self.members.push(member);
                        proof {
                            assert(members_view(self.members@) =~= before.members.push(written));
                        }
                    },
                }
                clone_data(&item.data)
            },
        };
        let change = PresenceMemberChange {
            action,
            connection_id: actor.connection_id.clone(),
            client_id: client_id.clone(),
            data,
            message_id,
            timestamp: command.request_time,
        };
        let ghost change_view = change@;
        self.member_changes.push(change);
        proof {
            assert(changes_view(self.member_changes@) =~= before.changes.push(change_view));
            let after = members_view(self.members@);
            assert forall|a: int, b: int|
                0 <= a < after.len() && 0 <= b < after.len() && a != b implies #[trigger] after[a].client_id
                != #[trigger] after[b].client_id by {
                match action {
                    PresenceChangeAction::Leave => {
                        let i = slot.unwrap() as int;
                        let a0 = if a < i { a } else { a + 1 };
                        let b0 = if b < i { b } else { b + 1 };
                        assert(after[a] == before.members[a0]);
                        assert(after[b] == before.members[b0]);
                    },
                    _ => {
                        match slot {
                            Some(i) => {
                                if a == i {
                                    assert(before.members[i as int].client_id == client_id@);
                                } else if b == i {
                                    assert(before.members[i as int].client_id == client_id@);
                                }
                            },
                            None => {
                                if a == before.members.len() {
                                    assert(before.members[b].client_id != client_id@);
                                } else if b == before.members.len() {
                                    assert(before.members[a].client_id != client_id@);
                                }
                            },
                        }
                    },
                }
            }
        }
        Ok(())
    }

    /// Builds the plan over the connection's current members.
    ///
    /// A domain refusal is returned as `Err(PresenceRejection)`; the plan is
    /// then dropped and the channel is untouched.
    pub fn build(
        command: &PresenceBatchCommand,
        current_members: Vec<PresenceMember>,
        presence_revision: u64,
    ) -> (r: Result<Self, PresenceRejection>)
        requires
            unique_clients(members_view(current_members@)),
        ensures
            match (r, batch_plan(command, presence_revision, members_view(current_members@))) {
                (Ok(plan), Ok(state)) => plan.state() == state && plan.revision()
                    == presence_revision && unique_clients(state.members),
                (Err(a), Err(b)) => a@ == b,
                _ => false,
            },
    {
        let ghost current = members_view(current_members@);
        let mut plan = PresenceBatchPlan {
            members: current_members,
            member_changes: Vec::new(),
            presence_revision,
        };
        proof {
            assert(changes_view(plan.member_changes@) =~= Seq::<MemberChangeView>::empty());
        }
        let mut index: usize = 0;
        while index < command.items.len()
            invariant
                index <= command.items@.len(),
                current == members_view(current_members@),
                plan.revision() == presence_revision,
                plan_prefix(command, presence_revision, current, index as nat) == Ok::<
                    PlanState,
                    RejectionView,
                >(plan.state()),
                unique_clients(plan.state().members),
            decreases command.items@.len() - index,
        {
            let ghost prior = plan.state();
            match plan.apply_item(command, index) {
                Ok(()) => {},
                Err(rejection) => {
                    proof {
                        assert(plan_prefix(command, presence_revision, current, (index + 1) as nat)
                            == plan_step(command, presence_revision, index as nat, prior));
                        lemma_plan_prefix_stays_refused(
                            command,
                            presence_revision,
                            current,
                            (index + 1) as nat,
                            command.items@.len(),
                        );
                        assert(batch_plan(command, presence_revision, current) == plan_step(
                            command,
                            presence_revision,
                            index as nat,
                            prior,
                        ));
                        assert(rejection@ == plan_step(
                            command,
                            presence_revision,
                            index as nat,
                            prior,
                        )->Err_0);
                        assert(batch_plan(command, presence_revision, current) is Err);
                    }
                    return Err(rejection);
                },
            }
            index = index + 1;
        }
        Ok(plan)
    }

    /// Splits the plan into the members to store and the changes for the event.
    pub fn into_parts(self) -> (r: (Vec<PresenceMember>, PresenceBatchDelta))
        ensures
            members_view(r.0@) == self.state().members,
            changes_view(r.1.member_changes@) == self.state().changes,
            r.1.presence_revision == self.revision(),
    {
        let delta = PresenceBatchDelta {
            member_changes: self.member_changes,
            presence_revision: self.presence_revision,
        };
        (self.members, delta)
    }
}

/// Once a prefix of the batch is refused, every longer prefix is refused the same way.
pub proof fn lemma_plan_prefix_stays_refused(
    command: &PresenceBatchCommand,
    revision: u64,
    current: Seq<MemberView>,
    n: nat,
    m: nat,
)
    requires
        n <= m,
        plan_prefix(command, revision, current, n) is Err,
    ensures
        plan_prefix(command, revision, current, m) == plan_prefix(command, revision, current, n),
    decreases m - n,
{
    if n < m {
        lemma_plan_prefix_stays_refused(command, revision, current, n, (m - 1) as nat);
    }
}

} // verus!

verus! {

/// Every member a plan holds belongs to the acting connection, when the
/// current members do.
pub proof fn lemma_plan_prefix_connection(
    command: &PresenceBatchCommand,
    revision: u64,
    current: Seq<MemberView>,
    n: nat,
)
    requires
        n <= command.items@.len(),
        forall|i: int|
            0 <= i < current.len() ==> (#[trigger] current[i]).connection_id
                == command.actor.connection_actor.connection_id@,
    ensures
        plan_prefix(command, revision, current, n) matches Ok(state) ==> forall|i: int|
            0 <= i < state.members.len() ==> (#[trigger] state.members[i]).connection_id
                == command.actor.connection_actor.connection_id@,
    decreases n,
{
    if n > 0 {
        lemma_plan_prefix_connection(command, revision, current, (n - 1) as nat);
        if let Ok(prior) = plan_prefix(command, revision, current, (n - 1) as nat) {
            if let Ok(state) = plan_step(command, revision, (n - 1) as nat, prior) {
                let item = command.items@[n - 1]@;
                let client_id = item.client_id->0;
                let slot = member_slot(prior.members, client_id);
                assert forall|i: int| 0 <= i < state.members.len() implies (
                #[trigger] state.members[i]).connection_id
                    == command.actor.connection_actor.connection_id@ by {
                    match spec_resolve_action(item.action, slot is Some) {
                        Ok(PresenceChangeAction::Leave) => {
                            let k = slot->0;
                            let i0 = if i < k { i } else { i + 1 };
                            assert(state.members[i] == prior.members[i0]);
                        },
                        _ => {
                            if i < prior.members.len() && (slot is None || slot->0 != i) {
                                assert(state.members[i] == prior.members[i]);
                            }
                        },
                    }
                }
            }
        }
    }
}

} // verus!

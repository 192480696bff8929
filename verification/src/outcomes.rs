use vstd::prelude::*;

use crate::channel::{AttachmentSaved, IndividualDetachOutcome};
use crate::commands::{AttachCommand, DetachCommand};
use crate::ids::Timestamp;
use crate::json::clone_data;
use crate::protocol::{
    members_view, ChannelChangeView, CommittedPresenceEvent, EventView, MemberChangeView,
    MemberView, OccupancyChange, PresenceChangeAction, PresenceChannelChanged, PresenceMember,
    PresenceMemberChange, changes_view,
};
use crate::text::{decimal, hyphenated_uuid, push_char, push_decimal, push_str, uuid_text};
use crate::transition::{CommittedChannelTransition, TransitionView};

verus! {

/// Identifier of the server-generated message `index` of an event:
/// `server:<eventId>:<index>`. It never starts with a connection identifier,
/// so clients cannot take it for one of their own operations.
pub open spec fn server_message_id(event_id: u128, index: nat) -> Seq<char> {
    "server:"@ + hyphenated_uuid(event_id) + seq![':'] + decimal(index)
}

/// Server-generated `Leave` changes for members removed by something other
/// than a client command, in the order given.
pub open spec fn server_leaves(event_id: u128, removed: Seq<MemberView>, timestamp: Timestamp) -> Seq<
    MemberChangeView,
> {
    Seq::new(
        removed.len(),
        |k: int|
            MemberChangeView {
                action: PresenceChangeAction::Leave,
                connection_id: removed[k].connection_id,
                client_id: removed[k].client_id,
                data: removed[k].data,
                message_id: server_message_id(event_id, k as nat),
                timestamp,
            },
    )
}

pub(crate) fn server_message_text(event_id: u128, index: usize) -> (r: String)
    ensures
        r@ == server_message_id(event_id, index as nat),
{
    let mut text = "server:".to_owned();
    push_str(&mut text, uuid_text(event_id).as_str());
    push_char(&mut text, ':');
    push_decimal(&mut text, index as u64);
    proof {
        assert(text@ =~= server_message_id(event_id, index as nat));
    }
    text
}

/// Server-generated `Leave` changes for removed members.
pub fn server_leave_changes(
    event_id: u128,
    removed_members: &Vec<PresenceMember>,
    timestamp: Timestamp,
) -> (r: Vec<PresenceMemberChange>)
    ensures
        changes_view(r@) == server_leaves(event_id, members_view(removed_members@), timestamp),
{
    let ghost target = server_leaves(event_id, members_view(removed_members@), timestamp);
    let mut changes: Vec<PresenceMemberChange> = Vec::new();
    let mut i: usize = 0;
    proof {
        assert(changes_view(changes@) =~= target.take(0));
    }
    while i < removed_members.len()
        invariant
            i <= removed_members@.len(),
            target == server_leaves(event_id, members_view(removed_members@), timestamp),
            changes_view(changes@) == target.take(i as int),
        decreases removed_members@.len() - i,
    {
        let member = &removed_members[i];
        let change = PresenceMemberChange {
            action: PresenceChangeAction::Leave,
            connection_id: member.connection_id.clone(),
            client_id: member.client_id.clone(),
            data: clone_data(&member.data),
            message_id: server_message_text(event_id, i),
            timestamp,
        };
        proof {
            assert(members_view(removed_members@)[i as int] == removed_members@[i as int]@);
            assert(change@ == target[i as int]);
        }
        let ghost before = changes@;
        let ghost cv = change@;
        proof {
            assert(changes_view(before).len() == before.len());
            assert(target.len() == removed_members@.len());
            assert(target.take(i as int).len() == i);
        }
        changes.push(change);
        proof {
            assert(changes@ =~= before.push(changes@[i as int]));
            assert(before.len() == i);
            assert(changes@[i as int]@ == cv);
            assert forall|k: int| 0 <= k < i implies changes_view(changes@)[k] == target[k] by {
                assert(changes@[k] == before[k]);
                assert(changes_view(before)[k] == target.take(i as int)[k]);
            }
            assert(changes_view(changes@) =~= target.take(i + 1));
        }
        i = i + 1;
    }
    proof {
        assert(target.take(removed_members@.len() as int) =~= target);
    }
    changes
}

/// The event of a change made by the server for a connection.
pub open spec fn server_event(
    event_id: u128,
    channel: (Seq<char>, Seq<char>),
    origin: (Seq<char>, u128, u64),
    presence_revision: Option<u64>,
    occupancy_version: u64,
    removed: Seq<MemberView>,
    occupancy: OccupancyChange,
    occurred_at: Timestamp,
) -> EventView {
    EventView {
        event_id,
        change: ChannelChangeView {
            channel,
            origin,
            presence_revision,
            occupancy_version,
            member_changes: server_leaves(event_id, removed, occurred_at),
            occupancy: Some(occupancy),
            occurred_at,
        },
    }
}

impl AttachmentSaved {
    /// The transition of a save, given the channel's Occupancy version after it.
    pub open spec fn spec_transition(
        &self,
        command: &AttachCommand,
        occupancy_version: u64,
    ) -> TransitionView {
        match self.occupancy_change {
            None => TransitionView::Unchanged { occupancy_version },
            Some(occupancy) => TransitionView::Changed(
                server_event(
                    command.event_id,
                    command.channel@,
                    command.actor.node_instance@,
                    self.presence_revision,
                    occupancy_version,
                    members_view(self.removed_members@),
                    occupancy,
                    command.request_time,
                ),
            ),
        }
    }

    /// Builds the transition of a save from its result and the command.
    ///
    /// Removing members always changes `presence_members`, so a save without
    /// an Occupancy change has nothing to publish.
    pub fn into_transition(self, command: &AttachCommand, occupancy_version: u64) -> (r:
        CommittedChannelTransition)
        ensures
            r@ == self.spec_transition(command, occupancy_version),
    {
        let occupancy = match self.occupancy_change {
            None => {
                return CommittedChannelTransition::Unchanged { occupancy_version };
            },
            Some(occupancy) => occupancy,
        };
        let member_changes = server_leave_changes(
            command.event_id,
            &self.removed_members,
            command.request_time,
        );
        let event = CommittedPresenceEvent::new(
            command.event_id,
            PresenceChannelChanged {
                channel: command.channel.clone(),
                origin: command.actor.node_instance.clone(),
                presence_revision: self.presence_revision,
                occupancy_version,
                member_changes,
                occupancy: Some(occupancy),
                occurred_at: command.request_time,
            },
        );
        CommittedChannelTransition::Changed(event)
    }
}

impl IndividualDetachOutcome {
    /// The transition of a detach.
    pub open spec fn spec_transition(&self, command: &DetachCommand) -> TransitionView {
        match self {
            IndividualDetachOutcome::NotAttached { occupancy_version } => {
                TransitionView::Unchanged { occupancy_version: *occupancy_version }
            },
            IndividualDetachOutcome::Detached {
                removed_members,
                presence_revision,
                occupancy_version,
                occupancy_change,
            } => TransitionView::Changed(
                server_event(
                    command.event_id,
                    command.channel@,
                    command.actor.node_instance@,
                    *presence_revision,
                    *occupancy_version,
                    members_view(removed_members@),
                    *occupancy_change,
                    command.request_time,
                ),
            ),
        }
    }

    /// Builds the transition of a detach from its result and the command.
    pub fn into_transition(self, command: DetachCommand) -> (r: CommittedChannelTransition)
        ensures
            r@ == self.spec_transition(&command),
    {
        match self {
            IndividualDetachOutcome::NotAttached { occupancy_version } => {
                CommittedChannelTransition::Unchanged { occupancy_version }
            },
            IndividualDetachOutcome::Detached {
                removed_members,
                presence_revision,
                occupancy_version,
                occupancy_change,
            } => {
                let member_changes = server_leave_changes(
                    command.event_id,
                    &removed_members,
                    command.request_time,
                );
                let event = CommittedPresenceEvent::new(
                    command.event_id,
                    PresenceChannelChanged {
                        channel: command.channel,
                        origin: command.actor.node_instance,
                        presence_revision,
                        occupancy_version,
                        member_changes,
                        occupancy: Some(occupancy_change),
                        occurred_at: command.request_time,
                    },
                );
                CommittedChannelTransition::Changed(event)
            },
        }
    }
}

} // verus!

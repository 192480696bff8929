use vstd::prelude::*;

use crate::protocol::{CommittedPresenceEvent, EventView, PresenceRejection, RejectionView};

verus! {

/// The result of a completed operation on the state of a channel.
#[derive(Debug)]
pub enum CommittedChannelTransition {
    /// The operation created no event; the Occupancy version stayed as it was.
    Unchanged { occupancy_version: u64 },
    /// A change was committed; both versions are kept in the event itself.
    Changed(CommittedPresenceEvent),
}

/// Mathematical content of [`CommittedChannelTransition`].
pub enum TransitionView {
    Unchanged { occupancy_version: u64 },
    Changed(EventView),
}

impl View for CommittedChannelTransition {
    type V = TransitionView;

    open spec fn view(&self) -> TransitionView {
        match self {
            CommittedChannelTransition::Unchanged { occupancy_version } => {
                TransitionView::Unchanged { occupancy_version: *occupancy_version }
            },
            CommittedChannelTransition::Changed(event) => TransitionView::Changed(event@),
        }
    }
}

impl TransitionView {
    pub open spec fn presence_revision(self) -> Option<u64> {
        match self {
            TransitionView::Unchanged { .. } => None,
            TransitionView::Changed(event) => event.change.presence_revision,
        }
    }

    pub open spec fn occupancy_version(self) -> u64 {
        match self {
            TransitionView::Unchanged { occupancy_version } => occupancy_version,
            TransitionView::Changed(event) => event.change.occupancy_version,
        }
    }

    pub open spec fn event(self) -> Option<EventView> {
        match self {
            TransitionView::Unchanged { .. } => None,
            TransitionView::Changed(event) => Some(event),
        }
    }
}

impl CommittedChannelTransition {
    /// The new Presence revision, when the operation changed the members.
    pub fn presence_revision(&self) -> (r: Option<u64>)
        ensures
            r == self@.presence_revision(),
    {
        match self {
            CommittedChannelTransition::Unchanged { .. } => None,
            CommittedChannelTransition::Changed(event) => event.change().presence_revision,
        }
    }

    /// The Occupancy version after the operation.
    pub fn occupancy_version(&self) -> (r: u64)
        ensures
            r == self@.occupancy_version(),
    {
        match self {
            CommittedChannelTransition::Unchanged { occupancy_version } => *occupancy_version,
            CommittedChannelTransition::Changed(event) => event.change().occupancy_version,
        }
    }

    /// The event created by the operation.
    pub fn event(&self) -> (r: Option<&CommittedPresenceEvent>)
        ensures
            match r {
                Some(event) => self@.event() == Some(event@),
                None => self@.event() is None,
            },
    {
        match self {
            CommittedChannelTransition::Unchanged { .. } => None,
            CommittedChannelTransition::Changed(event) => Some(event),
        }
    }
}

impl Clone for CommittedChannelTransition {
    fn clone(&self) -> (r: Self)
        ensures
            r@ == self@,
    {
        match self {
            CommittedChannelTransition::Unchanged { occupancy_version } => {
                CommittedChannelTransition::Unchanged { occupancy_version: *occupancy_version }
            },
            CommittedChannelTransition::Changed(event) => {
                CommittedChannelTransition::Changed(event.clone())
            },
        }
    }
}

/// The domain result of a client Presence command.
#[derive(Debug)]
pub enum PresenceMutationOutcome {
    Committed(CommittedChannelTransition),
    Rejected(PresenceRejection),
}

/// Mathematical content of [`PresenceMutationOutcome`].
pub enum OutcomeView {
    Committed(TransitionView),
    Rejected(RejectionView),
}

impl View for PresenceMutationOutcome {
    type V = OutcomeView;

    open spec fn view(&self) -> OutcomeView {
        match self {
            PresenceMutationOutcome::Committed(transition) => OutcomeView::Committed(
                transition@,
            ),
            PresenceMutationOutcome::Rejected(rejection) => OutcomeView::Rejected(rejection@),
        }
    }
}

impl Clone for PresenceMutationOutcome {
    fn clone(&self) -> (r: Self)
        ensures
            r@ == self@,
    {
        match self {
            PresenceMutationOutcome::Committed(transition) => PresenceMutationOutcome::Committed(
                transition.clone(),
            ),
            PresenceMutationOutcome::Rejected(rejection) => PresenceMutationOutcome::Rejected(
                rejection.clone(),
            ),
        }
    }
}

/// The outcome of a Presence command and whether it is a stored earlier result.
#[derive(Debug)]
pub struct PresenceMutationReceipt {
    pub outcome: PresenceMutationOutcome,
    pub replayed: bool,
}

/// Mathematical content of [`PresenceMutationReceipt`].
pub struct ReceiptView {
    pub outcome: OutcomeView,
    pub replayed: bool,
}

impl View for PresenceMutationReceipt {
    type V = ReceiptView;

    open spec fn view(&self) -> ReceiptView {
        ReceiptView { outcome: self.outcome@, replayed: self.replayed }
    }
}

impl PresenceMutationReceipt {
    /// A result computed by this call.
    pub fn fresh(outcome: PresenceMutationOutcome) -> (r: Self)
        ensures
            r@ == (ReceiptView { outcome: outcome@, replayed: false }),
    {
        PresenceMutationReceipt { outcome, replayed: false }
    }

    /// A result stored by an earlier call with the same operation.
    pub fn replayed(outcome: PresenceMutationOutcome) -> (r: Self)
        ensures
            r@ == (ReceiptView { outcome: outcome@, replayed: true }),
    {
        PresenceMutationReceipt { outcome, replayed: true }
    }
}

} // verus!

use vstd::prelude::*;

use crate::ids::{ChannelKey, ConnectionId, NodeInstance, Timestamp};
use crate::json::clone_data;

verus! {

/// A capability of an attachment to a channel.
#[derive(PartialEq, Eq, Structural, Clone, Copy, Debug)]
pub enum ChannelMode {
    Publish,
    Subscribe,
    Presence,
    PresenceSubscribe,
}

/// The set of modes an attachment holds.
#[derive(PartialEq, Eq, Structural, Clone, Copy, Debug)]
pub struct ChannelModes {
    pub publish: bool,
    pub subscribe: bool,
    pub presence: bool,
    pub presence_subscribe: bool,
}

impl ChannelModes {
    pub open spec fn holds(self, mode: ChannelMode) -> bool {
        match mode {
            ChannelMode::Publish => self.publish,
            ChannelMode::Subscribe => self.subscribe,
            ChannelMode::Presence => self.presence,
            ChannelMode::PresenceSubscribe => self.presence_subscribe,
        }
    }

    pub fn has_mode(&self, mode: ChannelMode) -> (r: bool)
        ensures
            r == self.holds(mode),
    {
        match mode {
            ChannelMode::Publish => self.publish,
            ChannelMode::Subscribe => self.subscribe,
            ChannelMode::Presence => self.presence,
            ChannelMode::PresenceSubscribe => self.presence_subscribe,
        }
    }

    pub fn is_empty(&self) -> (r: bool)
        ensures
            r == !(self.publish || self.subscribe || self.presence || self.presence_subscribe),
    {
        !(self.publish || self.subscribe || self.presence || self.presence_subscribe)
    }
}

/// How an attachment is counted in Occupancy.
#[derive(PartialEq, Eq, Structural, Clone, Copy, Debug)]
pub enum AttachmentTracking {
    /// The attachment is one connection of its own.
    Individual,
    /// The attachment is counted through an aggregated per-node shard.
    Aggregated,
}

/// The attachment of one connection to one channel.
#[derive(Debug)]
pub struct Attachment {
    pub connection_id: ConnectionId,
    pub node_instance: NodeInstance,
    pub accounting: AttachmentTracking,
    pub effective_modes: ChannelModes,
}

/// Mathematical content of [`Attachment`].
pub struct AttachmentView {
    pub connection_id: Seq<char>,
    pub node_instance: (Seq<char>, u128, u64),
    pub accounting: AttachmentTracking,
    pub effective_modes: ChannelModes,
}

impl View for Attachment {
    type V = AttachmentView;

    open spec fn view(&self) -> AttachmentView {
        AttachmentView {
            connection_id: self.connection_id@,
            node_instance: self.node_instance@,
            accounting: self.accounting,
            effective_modes: self.effective_modes,
        }
    }
}

impl Attachment {
    pub fn has_mode(&self, mode: ChannelMode) -> (r: bool)
        ensures
            r == self.effective_modes.holds(mode),
    {
        self.effective_modes.has_mode(mode)
    }

    pub fn is_individual(&self) -> (r: bool)
        ensures
            r == (self.accounting == AttachmentTracking::Individual),
    {
        self.accounting == AttachmentTracking::Individual
    }
}

impl Clone for Attachment {
    fn clone(&self) -> (r: Self)
        ensures
            r == *self,
            r@ == self@,
    {
        Attachment {
            connection_id: self.connection_id.clone(),
            node_instance: self.node_instance.clone(),
            accounting: self.accounting,
            effective_modes: self.effective_modes,
        }
    }
}

/// Occupancy counters of a channel.
#[derive(PartialEq, Eq, Structural, Clone, Copy, Debug)]
pub struct OccupancyMetrics {
    pub connections: u64,
    pub publishers: u64,
    pub subscribers: u64,
    pub presence_connections: u64,
    pub presence_subscribers: u64,
    pub presence_members: u64,
}

impl OccupancyMetrics {
    /// All counters zero.
    pub fn zero() -> (r: Self)
        ensures
            r == OccupancyMetrics::spec_zero(),
    {
        OccupancyMetrics {
            connections: 0,
            publishers: 0,
            subscribers: 0,
            presence_connections: 0,
            presence_subscribers: 0,
            presence_members: 0,
        }
    }

    pub open spec fn spec_zero() -> Self {
        OccupancyMetrics {
            connections: 0,
            publishers: 0,
            subscribers: 0,
            presence_connections: 0,
            presence_subscribers: 0,
            presence_members: 0,
        }
    }
}

/// One Occupancy counter.
#[derive(PartialEq, Eq, Structural, Clone, Copy, Debug)]
pub enum OccupancyCategory {
    Connections,
    Publishers,
    Subscribers,
    PresenceConnections,
    PresenceSubscribers,
    PresenceMembers,
}

/// A set of Occupancy counters.
#[derive(PartialEq, Eq, Structural, Clone, Copy, Debug)]
pub struct OccupancyCategories {
    pub connections: bool,
    pub publishers: bool,
    pub subscribers: bool,
    pub presence_connections: bool,
    pub presence_subscribers: bool,
    pub presence_members: bool,
}

impl OccupancyCategories {
    pub open spec fn spec_is_empty(self) -> bool {
        !(self.connections || self.publishers || self.subscribers || self.presence_connections
            || self.presence_subscribers || self.presence_members)
    }

    pub fn is_empty(&self) -> (r: bool)
        ensures
            r == self.spec_is_empty(),
    {
        !(self.connections || self.publishers || self.subscribers || self.presence_connections
            || self.presence_subscribers || self.presence_members)
    }

    pub open spec fn spec_none() -> Self {
        OccupancyCategories {
            connections: false,
            publishers: false,
            subscribers: false,
            presence_connections: false,
            presence_subscribers: false,
            presence_members: false,
        }
    }

    pub open spec fn spec_insert(self, category: OccupancyCategory) -> Self {
        match category {
            OccupancyCategory::Connections => OccupancyCategories { connections: true, ..self },
            OccupancyCategory::Publishers => OccupancyCategories { publishers: true, ..self },
            OccupancyCategory::Subscribers => OccupancyCategories { subscribers: true, ..self },
            OccupancyCategory::PresenceConnections => OccupancyCategories {
                presence_connections: true,
                ..self
            },
            OccupancyCategory::PresenceSubscribers => OccupancyCategories {
                presence_subscribers: true,
                ..self
            },
            OccupancyCategory::PresenceMembers => OccupancyCategories {
                presence_members: true,
                ..self
            },
        }
    }

    pub fn none() -> (r: Self)
        ensures
            r == OccupancyCategories::spec_none(),
    {
        OccupancyCategories {
            connections: false,
            publishers: false,
            subscribers: false,
            presence_connections: false,
            presence_subscribers: false,
            presence_members: false,
        }
    }

    pub fn insert(&mut self, category: OccupancyCategory)
        ensures
            *final(self) == old(self).spec_insert(category),
    {
        match category {
            OccupancyCategory::Connections => self.connections = true,
            OccupancyCategory::Publishers => self.publishers = true,
            OccupancyCategory::Subscribers => self.subscribers = true,
            OccupancyCategory::PresenceConnections => self.presence_connections = true,
            OccupancyCategory::PresenceSubscribers => self.presence_subscribers = true,
            OccupancyCategory::PresenceMembers => self.presence_members = true,
        }
    }
}

/// A change of Occupancy: the counters after it, which of them changed and
/// which of them moved from or to zero.
#[derive(PartialEq, Eq, Structural, Clone, Copy, Debug)]
pub struct OccupancyChange {
    pub metrics: OccupancyMetrics,
    pub changed_categories: OccupancyCategories,
    pub zero_boundary_categories: OccupancyCategories,
}

pub open spec fn crosses_zero(before: u64, after: u64) -> bool {
    (before == 0) != (after == 0)
}

impl OccupancyChange {
    /// The change between two sets of counters, or none when they are equal.
    pub open spec fn spec_between(before: OccupancyMetrics, after: OccupancyMetrics) -> Option<
        OccupancyChange,
    > {
        if before == after {
            None
        } else {
            Some(
                OccupancyChange {
                    metrics: after,
                    changed_categories: OccupancyCategories {
                        connections: before.connections != after.connections,
                        publishers: before.publishers != after.publishers,
                        subscribers: before.subscribers != after.subscribers,
                        presence_connections: before.presence_connections
                            != after.presence_connections,
                        presence_subscribers: before.presence_subscribers
                            != after.presence_subscribers,
                        presence_members: before.presence_members != after.presence_members,
                    },
                    zero_boundary_categories: OccupancyCategories {
                        connections: crosses_zero(before.connections, after.connections),
                        publishers: crosses_zero(before.publishers, after.publishers),
                        subscribers: crosses_zero(before.subscribers, after.subscribers),
                        presence_connections: crosses_zero(
                            before.presence_connections,
                            after.presence_connections,
                        ),
                        presence_subscribers: crosses_zero(
                            before.presence_subscribers,
                            after.presence_subscribers,
                        ),
                        presence_members: crosses_zero(
                            before.presence_members,
                            after.presence_members,
                        ),
                    },
                },
            )
        }
    }

    pub fn between(before: OccupancyMetrics, after: OccupancyMetrics) -> (r: Option<
        OccupancyChange,
    >)
        ensures
            r == OccupancyChange::spec_between(before, after),
    {
        if before == after {
            return None;
        }
        Some(
            OccupancyChange {
                metrics: after,
                changed_categories: OccupancyCategories {
                    connections: before.connections != after.connections,
                    publishers: before.publishers != after.publishers,
                    subscribers: before.subscribers != after.subscribers,
                    presence_connections: before.presence_connections
                        != after.presence_connections,
                    presence_subscribers: before.presence_subscribers
                        != after.presence_subscribers,
                    presence_members: before.presence_members != after.presence_members,
                },
                zero_boundary_categories: OccupancyCategories {
                    connections: (before.connections == 0) != (after.connections == 0),
                    publishers: (before.publishers == 0) != (after.publishers == 0),
                    subscribers: (before.subscribers == 0) != (after.subscribers == 0),
                    presence_connections: (before.presence_connections == 0) != (
                    after.presence_connections == 0),
                    presence_subscribers: (before.presence_subscribers == 0) != (
                    after.presence_subscribers == 0),
                    presence_members: (before.presence_members == 0) != (after.presence_members
                        == 0),
                },
            },
        )
    }
}

/// A Presence member: one client of one connection present in a channel.
#[derive(Debug)]
pub struct PresenceMember {
    pub connection_id: ConnectionId,
    pub client_id: String,
    pub node_instance: NodeInstance,
    pub data: Option<serde_json::Value>,
    pub last_message_id: String,
    pub presence_revision: u64,
    pub updated_at: Timestamp,
}

/// Mathematical content of [`PresenceMember`].
pub struct MemberView {
    pub connection_id: Seq<char>,
    pub client_id: Seq<char>,
    pub node_instance: (Seq<char>, u128, u64),
    pub data: Option<serde_json::Value>,
    pub last_message_id: Seq<char>,
    pub presence_revision: u64,
    pub updated_at: Timestamp,
}

impl View for PresenceMember {
    type V = MemberView;

    open spec fn view(&self) -> MemberView {
        MemberView {
            connection_id: self.connection_id@,
            client_id: self.client_id@,
            node_instance: self.node_instance@,
            data: self.data,
            last_message_id: self.last_message_id@,
            presence_revision: self.presence_revision,
            updated_at: self.updated_at,
        }
    }
}

/// The views of a sequence of members.
pub open spec fn members_view(s: Seq<PresenceMember>) -> Seq<MemberView> {
    s.map_values(|m: PresenceMember| m@)
}

impl Clone for PresenceMember {
    fn clone(&self) -> (r: Self)
        ensures
            r == *self,
            r@ == self@,
    {
        PresenceMember {
            connection_id: self.connection_id.clone(),
            client_id: self.client_id.clone(),
            node_instance: self.node_instance.clone(),
            data: clone_data(&self.data),
            last_message_id: self.last_message_id.clone(),
            presence_revision: self.presence_revision,
            updated_at: self.updated_at,
        }
    }
}

/// The action a client asks for on a Presence member.
#[derive(PartialEq, Eq, Structural, Clone, Copy, Debug)]
pub enum PresenceMutationAction {
    Enter,
    Update,
    Leave,
}

/// The wire name of a client Presence action.
pub open spec fn mutation_action_name(action: PresenceMutationAction) -> Seq<char> {
    match action {
        PresenceMutationAction::Enter => "enter"@,
        PresenceMutationAction::Update => "update"@,
        PresenceMutationAction::Leave => "leave"@,
    }
}

impl PresenceMutationAction {
    /// The wire name of the action.
    pub fn as_str(&self) -> (r: &'static str)
        ensures
            r@ == mutation_action_name(*self),
    {
        match self {
            PresenceMutationAction::Enter => "enter",
            PresenceMutationAction::Update => "update",
            PresenceMutationAction::Leave => "leave",
        }
    }
}

/// The canonical change published for a Presence member.
#[derive(PartialEq, Eq, Structural, Clone, Copy, Debug)]
pub enum PresenceChangeAction {
    Enter,
    Update,
    Leave,
}

/// One change of the member list, as published.
#[derive(Debug)]
pub struct PresenceMemberChange {
    pub action: PresenceChangeAction,
    pub connection_id: ConnectionId,
    pub client_id: String,
    pub data: Option<serde_json::Value>,
    pub message_id: String,
    pub timestamp: Timestamp,
}

/// Mathematical content of [`PresenceMemberChange`].
pub struct MemberChangeView {
    pub action: PresenceChangeAction,
    pub connection_id: Seq<char>,
    pub client_id: Seq<char>,
    pub data: Option<serde_json::Value>,
    pub message_id: Seq<char>,
    pub timestamp: Timestamp,
}

impl View for PresenceMemberChange {
    type V = MemberChangeView;

    open spec fn view(&self) -> MemberChangeView {
        MemberChangeView {
            action: self.action,
            connection_id: self.connection_id@,
            client_id: self.client_id@,
            data: self.data,
            message_id: self.message_id@,
            timestamp: self.timestamp,
        }
    }
}

/// The views of a sequence of member changes.
pub open spec fn changes_view(s: Seq<PresenceMemberChange>) -> Seq<MemberChangeView> {
    s.map_values(|c: PresenceMemberChange| c@)
}

impl Clone for PresenceMemberChange {
    fn clone(&self) -> (r: Self)
        ensures
            r == *self,
            r@ == self@,
    {
        PresenceMemberChange {
            action: self.action,
            connection_id: self.connection_id.clone(),
            client_id: self.client_id.clone(),
            data: clone_data(&self.data),
            message_id: self.message_id.clone(),
            timestamp: self.timestamp,
        }
    }
}

/// The content of a committed change of a channel.
#[derive(Debug)]
pub struct PresenceChannelChanged {
    pub channel: ChannelKey,
    pub origin: NodeInstance,
    /// The new Presence revision, when the member list changed.
    pub presence_revision: Option<u64>,
    pub occupancy_version: u64,
    pub member_changes: Vec<PresenceMemberChange>,
    pub occupancy: Option<OccupancyChange>,
    pub occurred_at: Timestamp,
}

/// Mathematical content of [`PresenceChannelChanged`].
pub struct ChannelChangeView {
    pub channel: (Seq<char>, Seq<char>),
    pub origin: (Seq<char>, u128, u64),
    pub presence_revision: Option<u64>,
    pub occupancy_version: u64,
    pub member_changes: Seq<MemberChangeView>,
    pub occupancy: Option<OccupancyChange>,
    pub occurred_at: Timestamp,
}

impl View for PresenceChannelChanged {
    type V = ChannelChangeView;

    open spec fn view(&self) -> ChannelChangeView {
        ChannelChangeView {
            channel: self.channel@,
            origin: self.origin@,
            presence_revision: self.presence_revision,
            occupancy_version: self.occupancy_version,
            member_changes: changes_view(self.member_changes@),
            occupancy: self.occupancy,
            occurred_at: self.occurred_at,
        }
    }
}

impl Clone for PresenceChannelChanged {
    fn clone(&self) -> (r: Self)
        ensures
            r@ == self@,
    {
        let member_changes = self.member_changes.clone();
        assert(member_changes@ =~= self.member_changes@);
        PresenceChannelChanged {
            channel: self.channel.clone(),
            origin: self.origin.clone(),
            presence_revision: self.presence_revision,
            occupancy_version: self.occupancy_version,
            member_changes,
            occupancy: self.occupancy,
            occurred_at: self.occurred_at,
        }
    }
}

/// A committed change of a channel with its event identifier.
#[derive(Debug)]
pub struct CommittedPresenceEvent {
    event_id: u128,
    change: PresenceChannelChanged,
}

/// Mathematical content of [`CommittedPresenceEvent`].
pub struct EventView {
    pub event_id: u128,
    pub change: ChannelChangeView,
}

impl View for CommittedPresenceEvent {
    type V = EventView;

    closed spec fn view(&self) -> EventView {
        EventView { event_id: self.event_id, change: self.change@ }
    }
}

impl CommittedPresenceEvent {
    pub fn new(event_id: u128, change: PresenceChannelChanged) -> (r: Self)
        ensures
            r@ == (EventView { event_id, change: change@ }),
    {
        CommittedPresenceEvent { event_id, change }
    }

    pub fn event_id(&self) -> (r: u128)
        ensures
            r == self@.event_id,
    {
        self.event_id
    }

    pub fn change(&self) -> (r: &PresenceChannelChanged)
        ensures
            r@ == self@.change,
    {
        &self.change
    }
}

impl Clone for CommittedPresenceEvent {
    fn clone(&self) -> (r: Self)
        ensures
            r@ == self@,
    {
        CommittedPresenceEvent { event_id: self.event_id, change: self.change.clone() }
    }
}

/// The members, versions and Occupancy of a channel at one moment.
#[derive(Debug)]
pub struct PresenceSnapshot {
    pub members: Vec<PresenceMember>,
    pub presence_revision: u64,
    pub occupancy_version: u64,
    pub occupancy: OccupancyMetrics,
}

/// Mathematical content of [`PresenceSnapshot`].
pub struct SnapshotView {
    pub members: Seq<MemberView>,
    pub presence_revision: u64,
    pub occupancy_version: u64,
    pub occupancy: OccupancyMetrics,
}

impl View for PresenceSnapshot {
    type V = SnapshotView;

    open spec fn view(&self) -> SnapshotView {
        SnapshotView {
            members: members_view(self.members@),
            presence_revision: self.presence_revision,
            occupancy_version: self.occupancy_version,
            occupancy: self.occupancy,
        }
    }
}

/// Why a client Presence command was refused.
#[derive(Debug)]
pub enum PresenceRejection {
    NotAttached,
    PresenceModeNotEnabled,
    UnidentifiedConnection,
    ClientIdNotAllowed { client_id: String },
    InvalidMemberState,
    ConflictingReplay,
    StaleOperation,
    ConnectionClosed,
}

/// Mathematical content of [`PresenceRejection`].
pub enum RejectionView {
    NotAttached,
    PresenceModeNotEnabled,
    UnidentifiedConnection,
    ClientIdNotAllowed { client_id: Seq<char> },
    InvalidMemberState,
    ConflictingReplay,
    StaleOperation,
    ConnectionClosed,
}

impl View for PresenceRejection {
    type V = RejectionView;

    open spec fn view(&self) -> RejectionView {
        match self {
            PresenceRejection::NotAttached => RejectionView::NotAttached,
            PresenceRejection::PresenceModeNotEnabled => RejectionView::PresenceModeNotEnabled,
            PresenceRejection::UnidentifiedConnection => RejectionView::UnidentifiedConnection,
            PresenceRejection::ClientIdNotAllowed { client_id } => {
                RejectionView::ClientIdNotAllowed { client_id: client_id@ }
            },
            PresenceRejection::InvalidMemberState => RejectionView::InvalidMemberState,
            PresenceRejection::ConflictingReplay => RejectionView::ConflictingReplay,
            PresenceRejection::StaleOperation => RejectionView::StaleOperation,
            PresenceRejection::ConnectionClosed => RejectionView::ConnectionClosed,
        }
    }
}

impl Clone for PresenceRejection {
    fn clone(&self) -> (r: Self)
        ensures
            r == *self,
            r@ == self@,
    {
        match self {
            PresenceRejection::NotAttached => PresenceRejection::NotAttached,
            PresenceRejection::PresenceModeNotEnabled => PresenceRejection::PresenceModeNotEnabled,
            PresenceRejection::UnidentifiedConnection => PresenceRejection::UnidentifiedConnection,
            PresenceRejection::ClientIdNotAllowed { client_id } => {
                PresenceRejection::ClientIdNotAllowed { client_id: client_id.clone() }
            },
            PresenceRejection::InvalidMemberState => PresenceRejection::InvalidMemberState,
            PresenceRejection::ConflictingReplay => PresenceRejection::ConflictingReplay,
            PresenceRejection::StaleOperation => PresenceRejection::StaleOperation,
            PresenceRejection::ConnectionClosed => PresenceRejection::ConnectionClosed,
        }
    }
}

} // verus!

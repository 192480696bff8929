//! The state of realtime channels: Presence members and Occupancy counters,
//! the local store that keeps them with deduplicated client commands, and the
//! key layout, request checks, script calls and reply decoding of the shared
//! Redis store.

pub mod broadcast;
pub mod channel;
pub mod commands;
pub mod config;
pub mod connection;
pub mod credentials;
pub mod encoding;
pub mod error;
pub mod ids;
pub mod keys;
pub mod laws;
pub mod ledger;
pub mod messages;
pub mod outbox;
pub mod outcomes;
pub mod presence_plan;
pub mod replies;
pub mod redis_store;
pub mod reply;
pub mod snapshot;
pub mod protocol;
pub mod sorting;
pub mod split;
pub mod store;
pub mod table;
pub mod text;
pub mod transition;

mod json;

pub use channel::{AttachmentSaved, ChannelState, IndividualDetachOutcome};
pub use commands::{
    AttachCommand, ChannelAttachOutcome, ClientIdPolicy, DetachCommand, DisconnectConnectionCommand,
    PresenceActor, PresenceBatchCommand, PresenceBatchItem, PresenceLedgerPolicy,
};
pub use config::{ApplicationKeyName, ConfigError, RealtimeConfig};
pub use connection::Connection;
pub use encoding::{
    is_valid_encoding_segment, is_valid_encoding_token, validate_encoding, validate_message_data,
    JsonKind, ValidationFailure,
};
pub use error::{ChannelStateStoreError, StoreErrorKind};
pub use ids::{
    ApplicationId, ChannelKey, ConnectionActor, ConnectionId, ConnectionKey, NodeId, NodeInstance,
    Timestamp,
};
pub use keys::{generation, operation_serial, AppNamespaceError, RedisKeys};
pub use ledger::{LedgerLookup, PresenceOperationLedger, PresenceOperationRecord};
pub use messages::{
    AccessTokenRequest, AccessTokenResponse, BroadcastApplication, BroadcastMessageResponse,
    ChannelMessagePublished, ChannelMessageSubmitted, Message, OneOrMany, WebSocketQuery,
    WebsocketConnected, WebsocketDisconnected, WebsocketFormat,
};
pub use presence_plan::{PresenceBatchDelta, PresenceBatchPlan};
pub use redis_store::{
    HeldLease, NodeClaimOutcome, NodeLease, NodeLeaseError, RedisChannelStore, ScriptCall,
};
pub use protocol::{
    Attachment, AttachmentTracking, ChannelMode, ChannelModes, CommittedPresenceEvent,
    OccupancyCategories, OccupancyCategory, OccupancyChange, OccupancyMetrics,
    PresenceChangeAction, PresenceChannelChanged, PresenceMember, PresenceMemberChange,
    PresenceMutationAction, PresenceRejection, PresenceSnapshot,
};
pub use store::MemoryStoreState;
pub use transition::{CommittedChannelTransition, PresenceMutationOutcome, PresenceMutationReceipt};

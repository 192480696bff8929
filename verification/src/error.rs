use vstd::prelude::*;

verus! {

/// Error of a channel state store.
#[derive(Debug)]
pub enum ChannelStateStoreError {
    /// The request is malformed or targets the wrong application or generation.
    InvalidRequest { message: String },
    /// The operation conflicts with the state owned by another party.
    Conflict { message: String },
    /// An internal invariant or counter limit was violated.
    Internal { message: String },
}

/// Kind of a store error, without its message.
#[derive(PartialEq, Eq, Structural, Clone, Copy, Debug)]
pub enum StoreErrorKind {
    InvalidRequest,
    Conflict,
    Internal,
}

impl ChannelStateStoreError {
    pub open spec fn kind_of(&self) -> StoreErrorKind {
        match self {
            ChannelStateStoreError::InvalidRequest { .. } => StoreErrorKind::InvalidRequest,
            ChannelStateStoreError::Conflict { .. } => StoreErrorKind::Conflict,
            ChannelStateStoreError::Internal { .. } => StoreErrorKind::Internal,
        }
    }

    pub open spec fn message_of(&self) -> Seq<char> {
        match self {
            ChannelStateStoreError::InvalidRequest { message } => message@,
            ChannelStateStoreError::Conflict { message } => message@,
            ChannelStateStoreError::Internal { message } => message@,
        }
    }

    pub fn invalid_request(message: &str) -> (r: Self)
        ensures
            r.kind_of() == StoreErrorKind::InvalidRequest,
            r.message_of() == message@,
    {
        ChannelStateStoreError::InvalidRequest { message: message.to_owned() }
    }

    pub fn conflict(message: String) -> (r: Self)
        ensures
            r.kind_of() == StoreErrorKind::Conflict,
            r.message_of() == message@,
    {
        ChannelStateStoreError::Conflict { message }
    }

    pub fn internal(message: &str) -> (r: Self)
        ensures
            r.kind_of() == StoreErrorKind::Internal,
            r.message_of() == message@,
    {
        ChannelStateStoreError::Internal { message: message.to_owned() }
    }

    /// Kind of this error.
    pub fn kind(&self) -> (r: StoreErrorKind)
        ensures
            r == self.kind_of(),
    {
        match self {
            ChannelStateStoreError::InvalidRequest { .. } => StoreErrorKind::InvalidRequest,
            ChannelStateStoreError::Conflict { .. } => StoreErrorKind::Conflict,
            ChannelStateStoreError::Internal { .. } => StoreErrorKind::Internal,
        }
    }

    /// Message of this error.
    pub fn message(&self) -> (r: &str)
        ensures
            r@ == self.message_of(),
    {
        match self {
            ChannelStateStoreError::InvalidRequest { message } => message.as_str(),
            ChannelStateStoreError::Conflict { message } => message.as_str(),
            ChannelStateStoreError::Internal { message } => message.as_str(),
        }
    }
}

} // verus!

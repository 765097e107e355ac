//! What can go wrong while the engine is set up or a message is ingested.

use vstd::prelude::*;

verus! {

/// The classes into which the errors fall.
#[derive(Clone, Copy, Debug, PartialEq, Eq, Structural)]
pub enum ErrorKind {
    /// A message lacks a field that is required of it.
    ParseError,
    /// The stream contradicts the state that was built from it.
    InvariantViolation,
    /// The configuration cannot be used.
    ConfigError,
}

/// An error of the engine. Every one of them is fatal for the run.
#[derive(Clone, Copy, Debug, PartialEq, Eq, Structural)]
pub enum EngineError {
    /// A sliding window of length zero was configured.
    ZeroSlidingWindow,
    /// A wantlist message does not say whether it is full, and the
    /// configuration does not allow that.
    MissingFullFlag,
    /// Rows were asked for a message that has no wantlist entries.
    MissingEntries,
    /// A message has neither wantlist entries nor connection flags, and the
    /// configuration does not allow that.
    EmptyMessage,
    /// A connection event does not say whether the peer was found.
    MissingPeerFound,
    /// A connection event does not say whether the peer disconnected.
    MissingPeerDisconnected,
    /// A connection event does not say whether the peer connected.
    MissingPeerConnected,
    /// A connection event reports neither a connect nor a disconnect.
    NoConnectionChange,
    /// A connection event reports both a connect and a disconnect.
    AmbiguousConnectionChange,
    /// A want has a type that is neither block nor have.
    UnknownWantType,
    /// A disconnect would take the connection count of a peer below zero.
    ConnectionCountUnderflow,
    /// A connect would take the connection count of a peer out of range.
    ConnectionCountOverflow,
    /// No message id is left for another message.
    MessageIdOverflow,
}

impl EngineError {
    /// The class of the error.
    pub open spec fn spec_kind(self) -> ErrorKind {
        match self {
            EngineError::ZeroSlidingWindow => ErrorKind::ConfigError,
            EngineError::UnknownWantType => ErrorKind::InvariantViolation,
            EngineError::ConnectionCountUnderflow => ErrorKind::InvariantViolation,
            EngineError::ConnectionCountOverflow => ErrorKind::InvariantViolation,
            EngineError::MessageIdOverflow => ErrorKind::InvariantViolation,
            _ => ErrorKind::ParseError,
        }
    }

    /// What the error says, in words.
    pub open spec fn spec_message(self) -> Seq<char> {
        match self {
            EngineError::ZeroSlidingWindow => "sliding windows must be >0"@,
            EngineError::MissingFullFlag => "got empty full_want_list, should be set"@,
            EngineError::MissingEntries => "no entries when converting from JSON message"@,
            EngineError::EmptyMessage => "got no wantlist entries and no connection event"@,
            EngineError::MissingPeerFound => "connection event is missing found"@,
            EngineError::MissingPeerDisconnected => {
                "connection event is missing peer_disconnected"@
            },
            EngineError::MissingPeerConnected => "connection event is missing peer_connected"@,
            EngineError::NoConnectionChange => {
                "connection event needs either connected or disconnected to be set"@
            },
            EngineError::AmbiguousConnectionChange => {
                "connection event needs exactly one of connected or disconnected to be set"@
            },
            EngineError::UnknownWantType => "unknown JSON want type"@,
            EngineError::ConnectionCountUnderflow => "disconnect of a peer without connections"@,
            EngineError::ConnectionCountOverflow => "too many connections of one peer"@,
            EngineError::MessageIdOverflow => "no message id is left"@,
        }
    }

    /// What the error says, in words.
    pub fn message(self) -> (r: &'static str)
        ensures
            r@ == self.spec_message(),
    {
        match self {
            EngineError::ZeroSlidingWindow => "sliding windows must be >0",
            EngineError::MissingFullFlag => "got empty full_want_list, should be set",
            EngineError::MissingEntries => "no entries when converting from JSON message",
            EngineError::EmptyMessage => "got no wantlist entries and no connection event",
            EngineError::MissingPeerFound => "connection event is missing found",
            EngineError::MissingPeerDisconnected => "connection event is missing peer_disconnected",
            EngineError::MissingPeerConnected => "connection event is missing peer_connected",
            EngineError::NoConnectionChange => {
                "connection event needs either connected or disconnected to be set"
            },
            EngineError::AmbiguousConnectionChange => {
                "connection event needs exactly one of connected or disconnected to be set"
            },
            EngineError::UnknownWantType => "unknown JSON want type",
            EngineError::ConnectionCountUnderflow => "disconnect of a peer without connections",
            EngineError::ConnectionCountOverflow => "too many connections of one peer",
            EngineError::MessageIdOverflow => "no message id is left",
        }
    }

    /// The class of the error.
    #[verifier::when_used_as_spec(spec_kind)]
    pub fn kind(self) -> (r: ErrorKind)
        ensures
            r == self.spec_kind(),
    {
        match self {
            EngineError::ZeroSlidingWindow => ErrorKind::ConfigError,
            EngineError::UnknownWantType => ErrorKind::InvariantViolation,
            EngineError::ConnectionCountUnderflow => ErrorKind::InvariantViolation,
            EngineError::ConnectionCountOverflow => ErrorKind::InvariantViolation,
            EngineError::MessageIdOverflow => ErrorKind::InvariantViolation,
            _ => ErrorKind::ParseError,
        }
    }
}

} // verus!

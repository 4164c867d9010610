//! Error types of the receive path, the send path, the parser and the
//! sealed framing.

use vstd::prelude::*;

verus! {

/// Why the validator rejected a packet.
#[derive(Debug, PartialEq, Eq, Structural)]
pub enum ValidationError {
    MissingMac,
    ReplayDetected,
    PayloadTooLarge,
    CounterJump,
    SessionMismatch,
}

/// Why a packet could not be serialized.
#[derive(Debug, PartialEq, Eq, Structural)]
pub enum SerializationError {
    PayloadTooLarge,
    MacLengthMismatch,
}

/// Why received bytes are not a packet.
#[derive(Debug, PartialEq, Eq, Structural)]
pub enum ParseError {
    UnexpectedLength,
    UnknownKind(u8),
    MacLengthMismatch,
}

/// Why sealing or opening failed.
#[derive(Debug, PartialEq, Eq)]
pub enum CryptoError {
    /// The tag did not match or the primitive failed; `context` names the
    /// call site.
    AuthFailed { context: &'static str },
    Parse(ParseError),
    Serialize(SerializationError),
}

} // verus!

//! Errors of the login handshake.
use vstd::prelude::*;

verus! {

/// What went wrong during a login attempt.
#[derive(Debug, PartialEq, Eq)]
pub enum EdupageError {
    /// The portal rejected the credentials (its answer carries the failure marker).
    InvalidCredentials,
    /// The transport failed, or a body could not be read.
    HTTPError(String),
    /// The login page does not hold the anti-forgery field at all.
    InvalidResponse,
    /// A marker was found but what should follow it is missing or malformed.
    ParseError(String),
    /// The credential form could not be encoded.
    SerializationError(String),
}

} // verus!

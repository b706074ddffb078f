//! The failures that callers can meet.

use crate::wire::WireError;
use vstd::prelude::*;

verus! {

/// Why a stored key or list of friends was not accepted.
#[derive(Clone, Copy, Debug, PartialEq, Eq)]
pub enum ConfigError {
    /// No home directory is known.
    NoHomeDir,
    /// An entry is no base-58 text of at most 32 bytes.
    Base58,
    /// The file could not be read or written.
    Io,
    /// An entry decodes to bytes that are no public key.
    InvalidKey,
}

/// Why a signed event was not accepted.
#[derive(Clone, Copy, Debug, PartialEq, Eq)]
pub enum SignatureError {
    /// The signature does not hold strictly under the embedded key.
    Dalek,
    /// The signed bytes are no event body.
    Postcard(WireError),
}

/// Why an identity probe did not give an identity.
#[derive(Clone, Copy, Debug, PartialEq, Eq)]
pub enum DiscoveryError {
    /// The answer carries another nonce than the question.
    InvalidNonce,
    /// No answer came in time.
    Timeout,
    /// The socket failed.
    Io,
    /// The answer's signature does not hold.
    Dalek,
    /// The answer is no well-formed frame.
    Postcard(WireError),
}

} // verus!

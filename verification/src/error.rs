use vstd::prelude::*;

verus! {

/// Why a token was refused.
#[derive(Debug, PartialEq, Eq, Clone, Copy)]
pub enum Error {
    /// The payload of an authentic token could not be interpreted. Never
    /// produced by the signers themselves.
    BadData,
    /// The token has no signature segment, or the signature does not match.
    BadSignature,
    /// The signature matches, but the timestamp segment is missing or malformed.
    BadTimeSignature,
    /// The token is authentic, but older than the caller allows.
    SignatureExpired,
}

} // verus!

//! Signed tokens: a value, a separator and a signature that only the holder of
//! a secret can produce, so that a value can travel through untrusted hands
//! (a link in an e-mail, a cookie) and come back unchanged or not at all.
//!
//! `Signer` signs a value and verifies a token. `TimestampSigner` adds the
//! time of signing to the token, under the same signature, and refuses tokens
//! that are older than the caller allows. The value is authenticated, not
//! hidden.
//!
//! The modules below them hold what a token is made of: `token` cuts a text at
//! its last separator, `base64url` is the text form of bytes, `mac` the
//! keyed hash, `clock` the time in seconds since the epoch of the timestamps.

pub mod base64url;
pub mod clock;
pub mod error;
pub mod mac;
pub mod signer;
pub mod timestamp;
pub mod token;

pub use error::Error;
pub use signer::Signer;
pub use timestamp::TimestampSigner;

use ring::hmac;
use vstd::prelude::*;

verus! {

/// `error::Unspecified` of ring: the error of `hmac::verify`, which holds
/// nothing.
#[verifier::external_type_specification]
#[verifier::external_body]
pub struct ExUnspecified(ring::error::Unspecified);

/// The HMAC-SHA1 tag of `message` under `key`: the twenty bytes of a SHA-1
/// digest.
pub uninterp spec fn hmac_sha1(key: Seq<u8>, message: Seq<u8>) -> [u8; 20];

/// The tag of `message` under `key`, as a sequence of bytes.
pub open spec fn tag(key: Seq<u8>, message: Seq<u8>) -> Seq<u8> {
    hmac_sha1(key, message)@
}

/// The length of a tag, in bytes.
pub const TAG_LEN: usize = 20;

/// The longest key and the longest message that are handed to the HMAC, in
/// bytes. ring counts the bits of its input in 64 bits; this is well within.
pub const MAX_INPUT_LEN: u64 = 0x1000_0000_0000_0000;

/// `hmac::sign` of ring, with a key that `hmac::Key::new` makes of `key` for
/// HMAC-SHA1. Trusted: the tag is a function of key and message alone, named
/// `hmac_sha1`, and has the twenty bytes of a SHA-1 digest. ring panics where
/// an input has more bits than a 64-bit counter holds, which the preconditions
/// rule out.
#[verifier::external_body]
fn hmac_sign(key: &[u8], message: &[u8]) -> (tag: Vec<u8>)
    requires
        key@.len() <= MAX_INPUT_LEN,
        message@.len() <= MAX_INPUT_LEN,
    ensures
        tag@ == hmac_sha1(key@, message@)@,
{
    let key = hmac::Key::new(hmac::HMAC_SHA1_FOR_LEGACY_USE_ONLY, key);
    hmac::sign(&key, message).as_ref().to_vec()
}

/// `hmac::verify` of ring, with a key that `hmac::Key::new` makes of `key` for
/// HMAC-SHA1. Trusted: ring computes the tag of `message` as `hmac::sign` does
/// and compares it with `tag` in constant time; it returns `Ok` exactly when
/// the two are equal.
#[verifier::external_body]
fn hmac_verify(key: &[u8], message: &[u8], tag: &[u8]) -> (outcome: Result<
    (),
    ring::error::Unspecified,
>)
    requires
        key@.len() <= MAX_INPUT_LEN,
        message@.len() <= MAX_INPUT_LEN,
    ensures
        outcome is Ok <==> tag@ == hmac_sha1(key@, message@)@,
{
    let key = hmac::Key::new(hmac::HMAC_SHA1_FOR_LEGACY_USE_ONLY, key);
    hmac::verify(&key, message, tag)
}

/// Computes the tag of `message` under `key`.
pub fn sign(key: &[u8], message: &[u8]) -> (tag: Vec<u8>)
    requires
        key@.len() <= MAX_INPUT_LEN,
        message@.len() <= MAX_INPUT_LEN,
    ensures
        tag@ == self::tag(key@, message@),
        tag@.len() == TAG_LEN,
{
    hmac_sign(key, message)
}

/// Checks `tag` against the tag of `message` under `key`, in constant time.
pub fn verify(key: &[u8], message: &[u8], tag: &[u8]) -> (ok: bool)
    requires
        key@.len() <= MAX_INPUT_LEN,
        message@.len() <= MAX_INPUT_LEN,
    ensures
        ok == (tag@ == self::tag(key@, message@)),
{
    match hmac_verify(key, message, tag) {
        Ok(_) => true,
        Err(_) => false,
    }
}

} // verus!

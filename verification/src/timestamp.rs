use crate::base64url::{decode, decoding, encode, encoding, is_symbol};
use crate::base64url::{lemma_decoding_of_encoding, lemma_encoding_shape};
use crate::clock::{timestamp_at, timestamp_of, unix_epoch};
use crate::error::Error;
use crate::mac::MAX_INPUT_LEN;
use crate::signer::{derived_key, law_round_trip, outcome_view, signature_of, signed_token};
use crate::signer::{verified_value, Signer, SEPARATOR};
use crate::token::{lemma_join_of_rsplit, lemma_rsplit_of_join, lemma_utf8_len_of_join};
use crate::token::{rsplit, rsplit_once};
use byteorder::{ByteOrder, LittleEndian};
use std::time::SystemTime;
use vstd::prelude::*;
use vstd::utf8::encode_utf8;

verus! {

/// The four bytes of `n` in two's complement, least significant byte first.
pub open spec fn le_bytes(n: i32) -> Seq<u8> {
    let u: int = if n < 0 {
        n + 0x1_0000_0000
    } else {
        n as int
    };
    seq![
        (u % 0x100) as u8,
        (u / 0x100 % 0x100) as u8,
        (u / 0x1_0000 % 0x100) as u8,
        (u / 0x100_0000) as u8,
    ]
}

/// The number that the four bytes of `bytes` stand for in two's complement,
/// least significant byte first.
pub open spec fn le_value(bytes: Seq<u8>) -> i32 {
    let u: int = bytes[0] + bytes[1] * 0x100 + bytes[2] * 0x1_0000 + bytes[3] * 0x100_0000;
    if u < 0x8000_0000 {
        u as i32
    } else {
        (u - 0x1_0000_0000) as i32
    }
}

/// `le_value` undoes `le_bytes`.
pub proof fn lemma_le_value_of_bytes(n: i32)
    ensures
        le_bytes(n).len() == 4,
        le_value(le_bytes(n)) == n,
{
    let u: int = if n < 0 {
        n + 0x1_0000_0000
    } else {
        n as int
    };
    let q1 = u / 0x100;
    let q2 = q1 / 0x100;
    let q3 = q2 / 0x100;
    assert(u / 0x1_0000 == q2);
    assert(u / 0x100_0000 == q3);
    assert(u == u % 0x100 + q1 % 0x100 * 0x100 + q2 % 0x100 * 0x1_0000 + q3 * 0x100_0000);
}

/// `ByteOrder::write_i32` of byteorder, for `LittleEndian`, on a buffer of
/// four bytes. Trusted: the buffer then holds `le_bytes` of the number.
#[verifier::external_body]
fn int_to_bytes(n: i32) -> (out: [u8; 4])
    ensures
        out@ == le_bytes(n),
{
    let mut out: [u8; 4] = [0u8; 4];
    LittleEndian::write_i32(&mut out, n);
    out
}

/// `ByteOrder::read_i32` of byteorder, for `LittleEndian`. Trusted: it
/// returns `le_value` of the four bytes. byteorder panics on fewer than four
/// bytes, which the precondition rules out.
#[verifier::external_body]
fn bytes_to_int(bytes: &[u8]) -> (n: i32)
    requires
        bytes@.len() == 4,
    ensures
        n == le_value(bytes@),
{
    LittleEndian::read_i32(bytes)
}

/// The text that carries the timestamp `stamp` in a token.
pub open spec fn stamp_text(stamp: i32) -> Seq<char> {
    encoding(le_bytes(stamp))
}

/// The timestamp that `text` carries, if it is the text of one.
pub open spec fn stamp_of_text(text: Seq<char>) -> Option<i32> {
    match decoding(text) {
        Some(bytes) => if bytes.len() == 4 {
            Some(le_value(bytes))
        } else {
            None
        },
        None => None,
    }
}

/// Whether a token stamped at `stamp` is older than `max_age` seconds at `now`.
pub open spec fn expired(now: i32, stamp: i32, max_age: u32) -> bool {
    now - stamp > max_age
}

/// The text that carries the timestamp `stamp` in a token.
pub fn encode_timestamp(stamp: i32) -> (text: String)
    ensures
        text@ == stamp_text(stamp),
{
    let bytes = int_to_bytes(stamp);
    encode(bytes.as_slice())
}

/// The timestamp that `text` carries; `None` where `text` is not the
/// encoding of four bytes.
pub fn decode_timestamp(text: &str) -> (stamp: Option<i32>)
    ensures
        stamp == stamp_of_text(text@),
{
    match decode(text) {
        Some(bytes) => if bytes.len() == 4 {
            Some(bytes_to_int(bytes.as_slice()))
        } else {
            None
        },
        None => None,
    }
}

/// Whether a token stamped at `stamp` is older than `max_age` seconds at
/// `now`. A stamp that lies after `now` is never too old.
pub fn is_expired(now: i32, stamp: i32, max_age: u32) -> (old: bool)
    ensures
        old == expired(now, stamp, max_age),
{
    let age: i64 = now as i64 - stamp as i64;
    age > max_age as i64
}

/// How many bytes the separator and the text of a timestamp add to a value.
pub const STAMP_SUFFIX_LEN: u64 = 7;

/// The token that carries `value` and the timestamp `stamp` under `key`.
pub open spec fn stamped_token(key: Seq<u8>, value: Seq<char>, stamp: i32) -> Seq<char> {
    signed_token(key, value + seq![SEPARATOR] + stamp_text(stamp))
}

/// What `token` yields under `key` at the time `now`, for tokens of at most
/// `max_age` seconds: the text before the timestamp of a verified token.
pub open spec fn stamped_value(key: Seq<u8>, token: Seq<char>, max_age: u32, now: i32) -> Result<
    Seq<char>,
    Error,
> {
    match verified_value(key, token) {
        Err(e) => Err(e),
        Ok(inner) => match rsplit(inner, SEPARATOR) {
            None => Err(Error::BadTimeSignature),
            Some((value, text)) => match stamp_of_text(text) {
                None => Err(Error::BadTimeSignature),
                Some(stamp) => if expired(now, stamp, max_age) {
                    Err(Error::SignatureExpired)
                } else {
                    Ok(value)
                },
            },
        },
    }
}

/// The text of a timestamp holds no separator, and gives the timestamp back.
pub proof fn lemma_stamp_text(stamp: i32)
    ensures
        !stamp_text(stamp).contains(SEPARATOR),
        stamp_of_text(stamp_text(stamp)) == Some(stamp),
{
    let text = stamp_text(stamp);
    lemma_le_value_of_bytes(stamp);
    lemma_encoding_shape(le_bytes(stamp));
    lemma_decoding_of_encoding(le_bytes(stamp));
    if text.contains(SEPARATOR) {
        let i = choose|i: int| 0 <= i < text.len() && text[i] == SEPARATOR;
        assert(is_symbol(text[i]));
    }
}

/// A value with its timestamp has `STAMP_SUFFIX_LEN` bytes more than the value.
pub proof fn lemma_stamped_len(value: Seq<char>, stamp: i32)
    ensures
        encode_utf8(value + seq![SEPARATOR] + stamp_text(stamp)).len() == encode_utf8(value).len()
            + STAMP_SUFFIX_LEN,
{
    let text = stamp_text(stamp);
    let suffix = seq![SEPARATOR] + text;
    lemma_le_value_of_bytes(stamp);
    lemma_encoding_shape(le_bytes(stamp));
    assert forall|i: int| 0 <= i < suffix.len() implies '\0' <= #[trigger] suffix[i]
        <= '\u{7f}' by {
        if i > 0 {
            assert(is_symbol(text[i - 1]));
        }
    }
    assert(value + seq![SEPARATOR] + text == value + suffix);
    lemma_utf8_len_of_join(value, suffix);
}

/// Signs values together with the time of signing, and verifies such tokens
/// against a maximum age.
pub struct TimestampSigner {
    signer: Signer,
}

impl View for TimestampSigner {
    type V = Seq<u8>;

    /// The key that signs.
    closed spec fn view(&self) -> Seq<u8> {
        self.signer@
    }
}

impl TimestampSigner {
    /// The signer for the holder of `secret`, of at most `MAX_INPUT_LEN`
    /// bytes.
    pub fn new(secret: &[u8]) -> (signer: TimestampSigner)
        requires
            secret@.len() <= MAX_INPUT_LEN,
        ensures
            signer@ == derived_key(secret@),
    {
        TimestampSigner { signer: Signer::new(secret) }
    }

    /// The timestamp of the present moment on the system clock: the
    /// timestamp of the second of Unix time that the clock shows, which is
    /// the seconds since `EPOCH`, wrapped into 32 bits.
    pub fn get_timestamp(&self) -> (stamp: i32)
        ensures
            exists|unix_secs: u64| stamp == #[trigger] timestamp_of(unix_secs),
    {
        let now = SystemTime::now();
        let elapsed = match now.duration_since(unix_epoch()) {
            Ok(since) => since,
            Err(before) => before.duration(),
        };
        let unix_secs = elapsed.as_secs();
        let stamp = timestamp_at(unix_secs);
        assert(stamp == timestamp_of(unix_secs));
        stamp
    }

    /// The signature of `value`, as text.
    pub fn signature(&self, value: &str) -> (text: String)
        requires
            encode_utf8(value@).len() <= MAX_INPUT_LEN,
        ensures
            text@ == signature_of(self@, value@),
    {
        self.signer.signature(value)
    }

    /// The token that carries `value` and the timestamp `stamp`; the value
    /// and the `STAMP_SUFFIX_LEN` bytes after it have at most `MAX_INPUT_LEN`
    /// bytes. At the time `now` the token yields the value where it is no
    /// older than allowed, and `SignatureExpired` where it is.
    pub fn sign_at(&self, value: &str, stamp: i32) -> (token: String)
        requires
            encode_utf8(value@).len() + STAMP_SUFFIX_LEN <= MAX_INPUT_LEN,
        ensures
            token@ == stamped_token(self@, value@, stamp),
            forall|max_age: u32, now: i32| #[trigger]
                stamped_value(self@, token@, max_age, now) == if expired(now, stamp, max_age) {
                    Err::<Seq<char>, Error>(Error::SignatureExpired)
                } else {
                    Ok::<Seq<char>, Error>(value@)
                },
    {
        let text = encode_timestamp(stamp);
        let mut composite = value.to_owned();
        composite.push(self.signer.separator());
        composite.append(text.as_str());
        proof {
            assert(composite@ == value@ + seq![SEPARATOR] + stamp_text(stamp));
            lemma_stamped_len(value@, stamp);
            assert forall|max_age: u32, now: i32| #[trigger]
                stamped_value(self@, stamped_token(self@, value@, stamp), max_age, now)
                    == if expired(now, stamp, max_age) {
                    Err::<Seq<char>, Error>(Error::SignatureExpired)
                } else {
                    Ok::<Seq<char>, Error>(value@)
                } by {
                law_expiry_boundary(self@, value@, stamp, max_age, now);
            }
        }
        self.signer.sign(composite.as_str())
    }

    /// The token that carries `value` and the timestamp of the present moment.
    pub fn sign(&self, value: &str) -> (token: String)
        requires
            encode_utf8(value@).len() + STAMP_SUFFIX_LEN <= MAX_INPUT_LEN,
        ensures
            exists|stamp: i32| token@ == #[trigger] stamped_token(self@, value@, stamp),
    {
        let stamp = self.get_timestamp();
        let token = self.sign_at(value, stamp);
        assert(token@ == stamped_token(self@, value@, stamp));
        token
    }

    /// Verifies `token` at the time `now` and returns the value it carries,
    /// unless it is older than `max_age` seconds. A token stamped after `now`
    /// is never too old.
    pub fn unsign_at(&self, token: &str, max_age: u32, now: i32) -> (outcome: Result<
        String,
        Error,
    >)
        ensures
            outcome_view(outcome) == stamped_value(self@, token@, max_age, now),
    {
        let inner = match self.signer.unsign(token) {
            Ok(inner) => inner,
            Err(e) => return Err(e),
        };
        let (value, text) = match rsplit_once(inner.as_str(), self.signer.separator()) {
            Some(parts) => parts,
            None => return Err(Error::BadTimeSignature),
        };
        let stamp = match decode_timestamp(text) {
            Some(stamp) => stamp,
            None => return Err(Error::BadTimeSignature),
        };
        if is_expired(now, stamp, max_age) {
            return Err(Error::SignatureExpired);
        }
        Ok(value.to_owned())
    }

    /// Verifies `token` at the present moment and returns the value it
    /// carries, unless it is older than `max_age` seconds.
    pub fn unsign(&self, token: &str, max_age: u32) -> (outcome: Result<String, Error>)
        ensures
            exists|now: i32| outcome_view(outcome) == #[trigger] stamped_value(
                self@,
                token@,
                max_age,
                now,
            ),
    {
        let now = self.get_timestamp();
        let outcome = self.unsign_at(token, max_age, now);
        assert(outcome_view(outcome) == stamped_value(self@, token@, max_age, now));
        outcome
    }
}

/// A token yields its value at the very time it was stamped, whatever the
/// maximum age.
pub proof fn law_stamped_round_trip(key: Seq<u8>, value: Seq<char>, stamp: i32, max_age: u32)
    requires
        encode_utf8(value).len() + STAMP_SUFFIX_LEN <= MAX_INPUT_LEN,
    ensures
        stamped_value(key, stamped_token(key, value, stamp), max_age, stamp) == Ok::<
            Seq<char>,
            Error,
        >(value),
{
    law_expiry_boundary(key, value, stamp, max_age, stamp);
}

/// A token stamped at `stamp` yields its value at `now` where `now - stamp`
/// is at most `max_age`, and `SignatureExpired` where it is more.
pub proof fn law_expiry_boundary(
    key: Seq<u8>,
    value: Seq<char>,
    stamp: i32,
    max_age: u32,
    now: i32,
)
    requires
        encode_utf8(value).len() + STAMP_SUFFIX_LEN <= MAX_INPUT_LEN,
    ensures
        stamped_value(key, stamped_token(key, value, stamp), max_age, now) == if now - stamp
            > max_age {
            Err::<Seq<char>, Error>(Error::SignatureExpired)
        } else {
            Ok::<Seq<char>, Error>(value)
        },
{
    let composite = value + seq![SEPARATOR] + stamp_text(stamp);
    lemma_stamp_text(stamp);
    lemma_stamped_len(value, stamp);
    law_round_trip(key, composite);
    lemma_rsplit_of_join(value, stamp_text(stamp), SEPARATOR);
}

/// A token without a timestamp, signed for a value that holds no separator,
/// is refused for its timestamp.
pub proof fn law_plain_token(key: Seq<u8>, value: Seq<char>, max_age: u32, now: i32)
    requires
        encode_utf8(value).len() <= MAX_INPUT_LEN,
        !value.contains(SEPARATOR),
    ensures
        stamped_value(key, signed_token(key, value), max_age, now) == Err::<Seq<char>, Error>(
            Error::BadTimeSignature,
        ),
{
    law_round_trip(key, value);
    lemma_join_of_rsplit(value, SEPARATOR);
}

} // verus!

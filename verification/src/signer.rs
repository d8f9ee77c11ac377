use crate::base64url::{decode, decoding, encode, encoding, is_symbol};
use crate::base64url::{lemma_decoding_of_encoding, lemma_encoding_of_decoding, lemma_encoding_shape};
use crate::error::Error;
use crate::mac::{tag, MAX_INPUT_LEN, TAG_LEN};
use crate::token::{lemma_join_of_rsplit, lemma_rsplit_of_join, rsplit, rsplit_once};
use vstd::prelude::*;
use vstd::utf8::encode_utf8;

verus! {

/// The character between a value and its signature.
pub const SEPARATOR: char = '.';

/// What a secret authenticates to give the key that signs.
pub const PURPOSE: &'static str = "nobi.Signer";

/// The key that signs for the holder of `secret`.
pub open spec fn derived_key(secret: Seq<u8>) -> Seq<u8> {
    tag(secret, encode_utf8(PURPOSE@))
}

/// The signature of `value` under `key`, as text.
pub open spec fn signature_of(key: Seq<u8>, value: Seq<char>) -> Seq<char> {
    encoding(tag(key, encode_utf8(value)))
}

/// The token that carries `value` under `key`.
pub open spec fn signed_token(key: Seq<u8>, value: Seq<char>) -> Seq<char> {
    value + seq![SEPARATOR] + signature_of(key, value)
}

/// What `token` yields under `key`: the text before its last separator, where
/// the text after it is the signature of the former. A token without a
/// separator is refused, and so is a value of more than `MAX_INPUT_LEN` bytes.
pub open spec fn verified_value(key: Seq<u8>, token: Seq<char>) -> Result<Seq<char>, Error> {
    match rsplit(token, SEPARATOR) {
        None => Err(Error::BadSignature),
        Some((value, signature)) => {
            if encode_utf8(value).len() <= MAX_INPUT_LEN && decoding(signature) == Some(
                tag(key, encode_utf8(value)),
            ) {
                Ok(value)
            } else {
                Err(Error::BadSignature)
            }
        },
    }
}

/// The outcome of a verification, with the text of its value.
pub open spec fn outcome_view(outcome: Result<String, Error>) -> Result<Seq<char>, Error> {
    match outcome {
        Ok(value) => Ok(value@),
        Err(e) => Err(e),
    }
}

/// Signs values and verifies tokens with a key derived from a secret.
pub struct Signer {
    separator: char,
    key: Vec<u8>,
}

impl View for Signer {
    type V = Seq<u8>;

    /// The key that signs.
    closed spec fn view(&self) -> Seq<u8> {
        self.key@
    }
}

impl Signer {
    #[verifier::type_invariant]
    spec fn well_formed(self) -> bool {
        self.separator == SEPARATOR && self.key@.len() == TAG_LEN
    }

    /// The signer for the holder of `secret`, of at most `MAX_INPUT_LEN`
    /// bytes. It keeps the key that the secret gives, not the secret.
    pub fn new(secret: &[u8]) -> (signer: Signer)
        requires
            secret@.len() <= MAX_INPUT_LEN,
        ensures
            signer@ == derived_key(secret@),
    {
        let purpose = PURPOSE.as_bytes();
        proof {
            reveal_strlit("nobi.Signer");
            vstd::utf8::is_ascii_chars_encode_utf8(PURPOSE@);
        }
        let key = crate::mac::sign(secret, purpose);
        Signer { separator: SEPARATOR, key }
    }

    /// The character between a value and its signature.
    pub fn separator(&self) -> (sep: char)
        ensures
            sep == SEPARATOR,
    {
        proof {
            use_type_invariant(self);
        }
        self.separator
    }

    /// The signature of `value`, of at most `MAX_INPUT_LEN` bytes, as text.
    pub fn signature(&self, value: &str) -> (text: String)
        requires
            encode_utf8(value@).len() <= MAX_INPUT_LEN,
        ensures
            text@ == signature_of(self@, value@),
    {
        proof {
            use_type_invariant(self);
        }
        let sig = crate::mac::sign(self.key.as_slice(), value.as_bytes());
        encode(sig.as_slice())
    }

    /// The token that carries `value`, of at most `MAX_INPUT_LEN` bytes: the
    /// value, the separator and the signature. Verification gives the value
    /// back.
    pub fn sign(&self, value: &str) -> (token: String)
        requires
            encode_utf8(value@).len() <= MAX_INPUT_LEN,
        ensures
            token@ == signed_token(self@, value@),
            verified_value(self@, token@) == Ok::<Seq<char>, Error>(value@),
    {
        proof {
            use_type_invariant(self);
            law_round_trip(self@, value@);
        }
        let signature = self.signature(value);
        let mut token = value.to_owned();
        token.push(self.separator);
        token.append(signature.as_str());
        token
    }

    /// Verifies `token` and returns the value it carries. The signature is
    /// compared in constant time.
    pub fn unsign(&self, token: &str) -> (outcome: Result<String, Error>)
        ensures
            outcome_view(outcome) == verified_value(self@, token@),
    {
        proof {
            use_type_invariant(self);
        }
        let (value, signature) = match rsplit_once(token, self.separator) {
            Some(parts) => parts,
            None => return Err(Error::BadSignature),
        };
        let sig = match decode(signature) {
            Some(bytes) => bytes,
            None => return Err(Error::BadSignature),
        };
        let message = value.as_bytes();
        if message.len() as u64 > MAX_INPUT_LEN {
            return Err(Error::BadSignature);
        }
        if crate::mac::verify(self.key.as_slice(), message, sig.as_slice()) {
            Ok(value.to_owned())
        } else {
            Err(Error::BadSignature)
        }
    }
}

/// Verifying a token under the key that signed it gives its value back,
/// separators in the value included.
pub proof fn law_round_trip(key: Seq<u8>, value: Seq<char>)
    requires
        encode_utf8(value).len() <= MAX_INPUT_LEN,
    ensures
        verified_value(key, signed_token(key, value)) == Ok::<Seq<char>, Error>(value),
{
    law_other_key(key, key, value);
}

/// A token whose signature segment was replaced is refused, where the text
/// in its place has the length of the signature or holds no separator.
pub proof fn law_forged_signature(key: Seq<u8>, value: Seq<char>, forged: Seq<char>)
    requires
        forged != signature_of(key, value),
        forged.len() == signature_of(key, value).len() || !forged.contains(SEPARATOR),
    ensures
        verified_value(key, value + seq![SEPARATOR] + forged) == Err::<Seq<char>, Error>(
            Error::BadSignature,
        ),
{
    let token = value + seq![SEPARATOR] + forged;
    lemma_encoding_shape(tag(key, encode_utf8(value)));
    lemma_join_of_rsplit(token, SEPARATOR);
    if !forged.contains(SEPARATOR) {
        lemma_rsplit_of_join(value, forged, SEPARATOR);
    }
    if let Some((head, tail)) = rsplit(token, SEPARATOR) {
        let expected = tag(key, encode_utf8(head));
        if decoding(tail) == Some(expected) {
            // The tail is a signature, so it has the length of one: the token
            // was cut where the forged text begins.
            lemma_encoding_of_decoding(tail);
            lemma_encoding_shape(expected);
            assert(tail.len() == forged.len());
            assert(head == token.subrange(0, head.len() as int));
            assert(value == token.subrange(0, value.len() as int));
            assert(tail == token.subrange(head.len() as int + 1, token.len() as int));
            assert(forged == token.subrange(value.len() as int + 1, token.len() as int));
            assert(false);
        }
    }
}

/// A token verifies under another key exactly where both keys give its value
/// the same tag; under every other key it is refused.
pub proof fn law_other_key(key: Seq<u8>, other: Seq<u8>, value: Seq<char>)
    requires
        encode_utf8(value).len() <= MAX_INPUT_LEN,
    ensures
        verified_value(other, signed_token(key, value)) == if tag(other, encode_utf8(value))
            == tag(key, encode_utf8(value)) {
            Ok::<Seq<char>, Error>(value)
        } else {
            Err::<Seq<char>, Error>(Error::BadSignature)
        },
{
    let t = tag(key, encode_utf8(value));
    let signature = signature_of(key, value);
    lemma_encoding_shape(t);
    lemma_decoding_of_encoding(t);
    assert(!signature.contains(SEPARATOR)) by {
        if signature.contains(SEPARATOR) {
            let i = choose|i: int| 0 <= i < signature.len() && signature[i] == SEPARATOR;
            assert(is_symbol(signature[i]));
        }
    }
    lemma_rsplit_of_join(value, signature, SEPARATOR);
}

} // verus!

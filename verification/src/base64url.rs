use base64::engine::general_purpose::URL_SAFE_NO_PAD;
use base64::Engine;
use vstd::prelude::*;

verus! {

/// `DecodeError` of the base64 crate: why a text was refused. Nothing is read
/// from it.
#[verifier::external_type_specification]
#[verifier::external_body]
pub struct ExDecodeError(base64::DecodeError);

/// The character that stands for the six-bit value `v` in the URL-safe alphabet:
/// `A`-`Z`, `a`-`z`, `0`-`9`, then `-` and `_`.
pub open spec fn symbol(v: int) -> char {
    if v < 26 {
        ('A' as int + v) as char
    } else if v < 52 {
        ('a' as int + (v - 26)) as char
    } else if v < 62 {
        ('0' as int + (v - 52)) as char
    } else if v == 62 {
        '-'
    } else {
        '_'
    }
}

/// Whether `c` belongs to the URL-safe alphabet.
pub open spec fn is_symbol(c: char) -> bool {
    ('A' <= c && c <= 'Z') || ('a' <= c && c <= 'z') || ('0' <= c && c <= '9') || c == '-' || c
        == '_'
}

/// The unpadded URL-safe base64 text of `data`: each group of three bytes gives
/// four symbols, most significant bits first; a last group of one or two bytes
/// gives two or three symbols, its unused low bits zero.
pub open spec fn encoding(data: Seq<u8>) -> Seq<char>
    decreases data.len(),
{
    if data.len() == 0 {
        Seq::empty()
    } else if data.len() == 1 {
        let a = data[0] as int;
        seq![symbol(a / 4), symbol(a % 4 * 16)]
    } else if data.len() == 2 {
        let a = data[0] as int;
        let b = data[1] as int;
        seq![symbol(a / 4), symbol(a % 4 * 16 + b / 16), symbol(b % 16 * 4)]
    } else {
        let a = data[0] as int;
        let b = data[1] as int;
        let c = data[2] as int;
        seq![
            symbol(a / 4),
            symbol(a % 4 * 16 + b / 16),
            symbol(b % 16 * 4 + c / 64),
            symbol(c % 64),
        ] + encoding(data.skip(3))
    }
}

/// The bytes that `text` is the encoding of, if there are any.
pub open spec fn decoding(text: Seq<char>) -> Option<Seq<u8>> {
    if exists|data: Seq<u8>| encoding(data) == text {
        Some(choose|data: Seq<u8>| encoding(data) == text)
    } else {
        None
    }
}

/// Distinct six-bit values have distinct symbols, all of them in the alphabet.
pub proof fn lemma_symbol(v: int, w: int)
    requires
        0 <= v < 64,
        0 <= w < 64,
    ensures
        is_symbol(symbol(v)),
        symbol(v) == symbol(w) ==> v == w,
{
}

/// How many symbols encode `n` bytes.
pub open spec fn encoded_len(n: nat) -> nat {
    ((4 * n + 2) / 3) as nat
}

/// An encoding holds symbols of the alphabet only, and as many as its length
/// in bytes calls for.
pub proof fn lemma_encoding_shape(data: Seq<u8>)
    ensures
        encoding(data).len() == encoded_len(data.len()),
        forall|i: int| 0 <= i < encoding(data).len() ==> is_symbol(#[trigger] encoding(data)[i]),
    decreases data.len(),
{
    if data.len() >= 3 {
        let a = data[0] as int;
        let b = data[1] as int;
        let c = data[2] as int;
        lemma_encoding_shape(data.skip(3));
        lemma_symbol(a / 4, 0);
        lemma_symbol(a % 4 * 16 + b / 16, 0);
        lemma_symbol(b % 16 * 4 + c / 64, 0);
        lemma_symbol(c % 64, 0);
    } else if data.len() == 2 {
        let a = data[0] as int;
        let b = data[1] as int;
        lemma_symbol(a / 4, 0);
        lemma_symbol(a % 4 * 16 + b / 16, 0);
        lemma_symbol(b % 16 * 4, 0);
    } else if data.len() == 1 {
        let a = data[0] as int;
        lemma_symbol(a / 4, 0);
        lemma_symbol(a % 4 * 16, 0);
    }
}

/// Two byte strings with the same encoding are the same.
pub proof fn lemma_encoding_injective(x: Seq<u8>, y: Seq<u8>)
    requires
        encoding(x) == encoding(y),
    ensures
        x == y,
    decreases x.len(),
{
    lemma_encoding_shape(x);
    lemma_encoding_shape(y);
    assert(x.len() == y.len());
    let ex = encoding(x);
    let ey = encoding(y);
    if x.len() >= 3 {
        let (a, b, c) = (x[0] as int, x[1] as int, x[2] as int);
        let (d, e, f) = (y[0] as int, y[1] as int, y[2] as int);
        assert(ex[0] == ey[0] && ex[1] == ey[1] && ex[2] == ey[2] && ex[3] == ey[3]);
        lemma_symbol(a / 4, d / 4);
        lemma_symbol(a % 4 * 16 + b / 16, d % 4 * 16 + e / 16);
        lemma_symbol(b % 16 * 4 + c / 64, e % 16 * 4 + f / 64);
        lemma_symbol(c % 64, f % 64);
        assert(encoding(x.skip(3)) == ex.skip(4));
        assert(encoding(y.skip(3)) == ey.skip(4));
        lemma_encoding_injective(x.skip(3), y.skip(3));
        assert forall|i: int| 0 <= i < x.len() implies x[i] == y[i] by {
            if i >= 3 {
                assert(x[i] == x.skip(3)[i - 3]);
                assert(y[i] == y.skip(3)[i - 3]);
            }
        }
    } else if x.len() == 2 {
        let (a, b) = (x[0] as int, x[1] as int);
        let (d, e) = (y[0] as int, y[1] as int);
        assert(ex[0] == ey[0] && ex[1] == ey[1] && ex[2] == ey[2]);
        lemma_symbol(a / 4, d / 4);
        lemma_symbol(a % 4 * 16 + b / 16, d % 4 * 16 + e / 16);
        lemma_symbol(b % 16 * 4, e % 16 * 4);
    } else if x.len() == 1 {
        let a = x[0] as int;
        let d = y[0] as int;
        assert(ex[0] == ey[0] && ex[1] == ey[1]);
        lemma_symbol(a / 4, d / 4);
        lemma_symbol(a % 4 * 16, d % 4 * 16);
    }
    assert(x =~= y);
}

/// Decoding undoes encoding.
pub proof fn lemma_decoding_of_encoding(data: Seq<u8>)
    ensures
        decoding(encoding(data)) == Some(data),
{
    let found = choose|d: Seq<u8>| encoding(d) == encoding(data);
    lemma_encoding_injective(found, data);
}

/// What `decoding` returns encodes to its argument.
pub proof fn lemma_encoding_of_decoding(text: Seq<char>)
    ensures
        decoding(text) matches Some(data) ==> encoding(data) == text,
        decoding(text) is None ==> forall|data: Seq<u8>| encoding(data) != text,
{
}

/// `Engine::encode` of the base64 crate, on its `URL_SAFE_NO_PAD` engine.
/// Trusted: the text it returns is `encoding` of the bytes. The crate panics
/// where the length of the text does not fit in `usize`, and std where it is
/// more than a buffer can hold, which the precondition rules out.
#[verifier::external_body]
fn engine_encode(data: &[u8]) -> (text: String)
    requires
        data@.len() / 3 * 4 + 3 <= isize::MAX,
    ensures
        text@ == encoding(data@),
{
    URL_SAFE_NO_PAD.encode(data)
}

/// `Engine::decode` of the base64 crate, on its `URL_SAFE_NO_PAD` engine.
/// Trusted: it accepts exactly the texts that are the `encoding` of some bytes,
/// and returns those bytes. The engine refuses characters outside the
/// alphabet, padding, a length of one more than a multiple of four, and a last
/// symbol whose unused bits are not zero.
#[verifier::external_body]
fn engine_decode(text: &str) -> (decoded: Result<Vec<u8>, base64::DecodeError>)
    ensures
        match decoded {
            Ok(data) => encoding(data@) == text@,
            Err(_) => forall|data: Seq<u8>| encoding(data) != text@,
        },
{
    URL_SAFE_NO_PAD.decode(text)
}

/// Encodes `data` as unpadded URL-safe base64, where the text is no longer
/// than a buffer can be. Decoding the text gives the data back.
pub fn encode(data: &[u8]) -> (text: String)
    requires
        data@.len() / 3 * 4 + 3 <= isize::MAX,
    ensures
        text@ == encoding(data@),
        decoding(text@) == Some(data@),
{
    proof {
        lemma_decoding_of_encoding(data@);
    }
    engine_encode(data)
}

/// Decodes unpadded URL-safe base64; `None` where `text` is no encoding.
pub fn decode(text: &str) -> (data: Option<Vec<u8>>)
    ensures
        match data {
            Some(bytes) => decoding(text@) == Some(bytes@),
            None => decoding(text@) is None,
        },
{
    match engine_decode(text) {
        Ok(bytes) => {
            proof {
                lemma_decoding_of_encoding(bytes@);
            }
            Some(bytes)
        },
        Err(_) => None,
    }
}

} // verus!

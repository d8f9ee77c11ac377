use nobsign::signer::{PURPOSE, SEPARATOR};
use nobsign::{Error, Signer};
use ring::rand::{SecureRandom, SystemRandom};

#[test]
fn signs() {
    let signer = Signer::new(b"my-key");

    let signed = signer.sign("value");
    assert_eq!("value.EWkF3-80sipsPgLQ01NuTuPb0jQ".to_owned(), signed);

    assert_eq!("value".to_owned(), signer.unsign(&signed).unwrap());
}

#[test]
fn bad_unsign() {
    let signer = Signer::new(b"my-key");

    let signed = "value.ABCDEF";
    assert_eq!(Err(Error::BadSignature), signer.unsign(&signed));
}

#[test]
fn with_secure_secret() {
    let sys_rand = SystemRandom::new();
    let mut key = vec![0u8; ring::digest::SHA1_FOR_LEGACY_USE_ONLY.output_len()];
    sys_rand.fill(&mut key).unwrap();

    let signer = Signer::new(&key);
    let signed = signer.sign("Hello world!");

    assert_eq!("Hello world!", signer.unsign(&signed).unwrap());
}

#[test]
fn constants_are_the_wire_format() {
    assert_eq!('.', SEPARATOR);
    assert_eq!("nobi.Signer", PURPOSE);
    assert_eq!('.', Signer::new(b"my-key").separator());
}

#[test]
fn signature_is_the_last_segment_of_the_token() {
    let signer = Signer::new(b"my-key");
    assert_eq!("EWkF3-80sipsPgLQ01NuTuPb0jQ", signer.signature("value"));
    assert_eq!("sE38Ey6drKpt11lQ-vVYe3FuRYc", signer.signature("héllo wörld ✓"));
}

#[test]
fn round_trip_keeps_separators_in_the_value() {
    let signer = Signer::new(b"my-key");
    let signed = signer.sign("a.b.c");
    assert_eq!("a.b.c.KyMFRXvrbnmaCi3_e2C0lAdZg2Q", signed);
    assert_eq!(Ok("a.b.c".to_owned()), signer.unsign(&signed));

    for value in ["", ".", "..", "trailing.", ".leading", "ünï.cödé ✓", "a b\n.c"] {
        let signed = signer.sign(value);
        assert_eq!(Ok(value.to_owned()), signer.unsign(&signed));
    }
}

#[test]
fn empty_value_round_trips() {
    let signer = Signer::new(b"my-key");
    let signed = signer.sign("");
    assert_eq!(".DdQ66zoYeCyYBElSLkW1dkmK8OA", signed);
    assert_eq!(Ok(String::new()), signer.unsign(&signed));
}

#[test]
fn token_without_separator_is_refused() {
    let signer = Signer::new(b"my-key");
    assert_eq!(Err(Error::BadSignature), signer.unsign(""));
    assert_eq!(Err(Error::BadSignature), signer.unsign("value"));
    assert_eq!(Err(Error::BadSignature), signer.unsign("EWkF3-80sipsPgLQ01NuTuPb0jQ"));
}

#[test]
fn signature_that_does_not_decode_is_refused() {
    let signer = Signer::new(b"my-key");
    // A symbol outside the alphabet, a stray length, padding, the standard
    // alphabet in place of the URL-safe one.
    assert_eq!(Err(Error::BadSignature), signer.unsign("value.EWkF3-80sipsPgLQ01NuTuPb0j!"));
    assert_eq!(Err(Error::BadSignature), signer.unsign("value.EWkF3-80sipsPgLQ01NuTuPb0jQA"));
    assert_eq!(Err(Error::BadSignature), signer.unsign("value.EWkF3-80sipsPgLQ01NuTuPb0jQ="));
    assert_eq!(Err(Error::BadSignature), signer.unsign("value.EWkF3+80sipsPgLQ01NuTuPb0jQ"));
    assert_eq!(Err(Error::BadSignature), signer.unsign("value."));
}

#[test]
fn every_change_to_the_signature_is_detected() {
    let signer = Signer::new(b"my-key");
    let signed = signer.sign("value");
    let start: usize = "value.".len();
    let replacements = ['A', 'Q', 'z', '0', '-', '_', '.', '=', ' ', '\u{e9}'];
    for position in start..signed.len() {
        for replacement in replacements {
            let mut forged = String::new();
            forged.push_str(&signed[..position]);
            forged.push(replacement);
            forged.push_str(&signed[position + 1..]);
            if forged != signed {
                assert_eq!(Err(Error::BadSignature), signer.unsign(&forged));
            }
        }
    }
}

#[test]
fn change_to_the_value_is_detected() {
    let signer = Signer::new(b"my-key");
    assert_eq!(
        Err(Error::BadSignature),
        signer.unsign("valuf.EWkF3-80sipsPgLQ01NuTuPb0jQ")
    );
    assert_eq!(
        Err(Error::BadSignature),
        signer.unsign("x.value.EWkF3-80sipsPgLQ01NuTuPb0jQ")
    );
}

#[test]
fn token_of_another_secret_is_refused() {
    let ours = Signer::new(b"my-key");
    let theirs = Signer::new(b"other-key");
    let signed = theirs.sign("value");
    assert_eq!("value.377MNVZpBNY29mXSOooeMTA83Ig", signed);
    assert_eq!(Err(Error::BadSignature), ours.unsign(&signed));
    assert_eq!(Ok("value".to_owned()), theirs.unsign(&signed));
}

#[test]
fn secrets_that_hmac_pads_alike_share_their_tokens() {
    // HMAC fills a short key with zero bytes, so these two secrets are one key.
    let short = Signer::new(b"a");
    let padded = Signer::new(b"a\0");
    let signed = short.sign("value");
    assert_eq!("value.OJTlCDUFwBt3lvobb1IYuhBiRvQ", signed);
    assert_eq!(signed, padded.sign("value"));
    assert_eq!(Ok("value".to_owned()), padded.unsign(&signed));
}

#[test]
fn error_variants_are_distinct() {
    let all = [
        Error::BadData,
        Error::BadSignature,
        Error::BadTimeSignature,
        Error::SignatureExpired,
    ];
    for (i, a) in all.iter().enumerate() {
        for (j, b) in all.iter().enumerate() {
            assert_eq!(i == j, a == b);
        }
    }
    assert_eq!("BadData", format!("{:?}", Error::BadData));
}

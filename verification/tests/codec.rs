//! The encoder and decoder on their reference vectors and error cases.

use boba::{decode, encode, DecodeError};

#[test]
fn encoder() {
    assert_eq!(encode(b""), "xexax");
    assert_eq!(encode(b"1234567890"), "xesef-disof-gytuf-katof-movif-baxux");
    assert_eq!(encode(b"Pineapple"), "xigak-nyryk-humil-bosek-sonax");

    // the UTF-8 bytes of a string of five emoji
    assert_eq!(
        encode(b"\xF0\x9F\x92\x8E\xF0\x9F\xA6\x80\xE2\x9D\xA4\xEF\xB8\x8F\xE2\x9C\xA8\xF0\x9F\x92\xAA"),
        "xusan-zugom-vesin-zenom-bumun-tanav-zyvam-zomon-sapaz-bulin-dypux"
    );
}

#[test]
fn decoder() {
    assert_eq!(decode(b"xexax"), Ok(vec![]));
    assert_eq!(
        decode(b"xesef-disof-gytuf-katof-movif-baxux"),
        Ok(b"1234567890".to_vec())
    );
    assert_eq!(
        decode(b"xigak-nyryk-humil-bosek-sonax"),
        Ok(b"Pineapple".to_vec())
    );

    assert_eq!(
        decode(b"xusan-zugom-vesin-zenom-bumun-tanav-zyvam-zomon-sapaz-bulin-dypux"),
        Ok(b"\xF0\x9F\x92\x8E\xF0\x9F\xA6\x80\xE2\x9D\xA4\xEF\xB8\x8F\xE2\x9C\xA8\xF0\x9F\x92\xAA".to_vec())
    );
}

#[test]
fn decode_error_sub_dash() {
    assert_eq!(
        decode(b"xesefxdisofxgytufxkatofxmovifxbaxux"),
        Err(DecodeError::ChecksumMismatch)
    );
}

#[test]
fn decode_sub_vowel_to_consonant() {
    assert_eq!(
        decode(b"xssef-disof-gytuf-katof-movif-baxux"),
        Err(DecodeError::ExpectedVowel),
    );
}

#[test]
fn decode_sub_consonant_to_vowel() {
    assert_eq!(
        decode(b"xeeef-disof-gytuf-katof-movif-baxux"),
        Err(DecodeError::ExpectedConsonant)
    );
}

#[test]
fn decode_error() {
    assert_eq!(decode(b""), Err(DecodeError::Corrupted));
    assert_eq!(decode(b"z"), Err(DecodeError::Corrupted));
    assert_eq!(decode(b"xy"), Err(DecodeError::MalformedTrailer));
    assert_eq!(decode(b"yx"), Err(DecodeError::MalformedHeader));
    assert_eq!(decode(b"xx"), Err(DecodeError::Corrupted));
    // "x" followed by two emoji and "x"
    assert_eq!(
        decode(b"x\xF0\x9F\x92\x8E\xF0\x9F\xA6\x80x"),
        Err(DecodeError::InvalidByte(1))
    );
    assert_eq!(decode(b"x789x"), Err(DecodeError::InvalidByte(1)));
}

#[test]
fn decode_error_bad_alphabet() {
    assert_eq!(
        decode(b"xigak-nyryk-/umil-bosek-sonax"),
        Err(DecodeError::InvalidByte(12))
    );
    assert_eq!(decode(b"x\xFFx"), Err(DecodeError::InvalidByte(1)));
    assert_eq!(
        decode(b"xigak-nyryk-Humil-bosek-sonax"),
        Err(DecodeError::InvalidByte(12))
    );
    assert_eq!(
        decode(b"XIGAK-NYRYK-HUMIL-BOSEK-SONAX"),
        Err(DecodeError::Corrupted)
    );
    assert_eq!(
        decode(b"xIGAK-NYRYK-HUMIL-BOSEK-SONAX"),
        Err(DecodeError::MalformedTrailer)
    );
    assert_eq!(
        decode(b"xIGAK-NYRYK-HUMIL-BOSEK-SONAx"),
        Err(DecodeError::InvalidByte(1))
    );
}

#[test]
fn error_display_is_not_empty() {
    let test_cases = [
        DecodeError::ChecksumMismatch,
        DecodeError::Corrupted,
        DecodeError::ExpectedConsonant,
        DecodeError::ExpectedVowel,
        DecodeError::InvalidByte(0),
        DecodeError::InvalidByte(123),
        DecodeError::MalformedHeader,
        DecodeError::MalformedTrailer,
    ];
    for tc in test_cases {
        let buf = tc.message();
        assert!(!buf.is_empty());
    }
}

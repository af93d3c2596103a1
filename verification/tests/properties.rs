//! The encoding's laws on concrete values: round trips, error positions,
//! tamper detection, deterministic failure, and exact messages.

use boba::{decode, encode, DecodeError};

#[test]
fn round_trip_every_single_byte() {
    let mut b: u8 = 0;
    loop {
        let encoded = encode(&[b]);
        assert_eq!(decode(encoded.as_bytes()), Ok(vec![b]));
        if b == 255 {
            break;
        }
        b += 1;
    }
}

#[test]
fn round_trip_every_prefix_length() {
    let mut data: Vec<u8> = Vec::new();
    for i in 0..60usize {
        data.push((i * 37 + 11) as u8);
    }
    for len in 0..=data.len() {
        let prefix = &data[..len];
        let encoded = encode(prefix);
        assert_eq!(decode(encoded.as_bytes()), Ok(prefix.to_vec()));
    }
}

#[test]
fn canonical_empty_form() {
    assert_eq!(encode(b""), "xexax");
    assert_eq!(decode(b"xexax"), Ok(vec![]));
}

#[test]
fn single_x_is_missing_trailer() {
    assert_eq!(decode(b"x"), Err(DecodeError::MalformedTrailer));
}

#[test]
fn invalid_byte_is_reported_at_its_position() {
    // every byte outside the 24-letter alphabet between a bare header and
    // trailer is reported at position 1
    assert_eq!(decode(b"x?x"), Err(DecodeError::InvalidByte(1)));
    assert_eq!(decode(b"x x"), Err(DecodeError::InvalidByte(1)));
    assert_eq!(decode(b"x\x00x"), Err(DecodeError::InvalidByte(1)));
    // deeper in the interior, the first offender wins
    assert_eq!(decode(b"xesef?disof?x"), Err(DecodeError::InvalidByte(5)));
}

#[test]
fn impossible_packed_field_is_corrupted() {
    // 'y' decodes to vowel index 5; stripping the initial checksum offset 1
    // leaves 4, impossible for a 2-bit field
    assert_eq!(decode(b"xybax"), Err(DecodeError::Corrupted));
}

#[test]
fn decode_is_deterministic() {
    let inputs: [&[u8]; 7] = [
        b"",
        b"z",
        b"xy",
        b"xx",
        b"x789x",
        b"xesefxdisofxgytufxkatofxmovifxbaxux",
        b"xybax",
    ];
    for input in inputs {
        assert_eq!(decode(input), decode(input));
    }
}

#[test]
fn tamper_separator_is_never_silent() {
    let data: &[u8] = b"1234567890";
    let encoded = encode(data);
    let bytes = encoded.as_bytes();
    for pos in 0..bytes.len() {
        if bytes[pos] != b'-' {
            continue;
        }
        for &substitute in b"aeiouybcdfghklmnprstvzx" {
            let mut tampered = bytes.to_vec();
            tampered[pos] = substitute;
            assert_eq!(decode(&tampered), Err(DecodeError::ChecksumMismatch));
        }
    }
}

#[test]
fn tamper_checksum_collision_is_still_caught() {
    // for these two bytes the final checksum coincides with the initial one,
    // so a decoder that skipped a damaged window and checked only the parity
    // tuple would silently return no bytes at all; the damaged window itself
    // must fail instead
    let encoded = encode(&[0u8, 32u8]);
    assert_eq!(encoded, "xebad-bexax");
    assert_eq!(decode(b"xebadabexax"), Err(DecodeError::ChecksumMismatch));
}

#[test]
fn message_texts_are_exact() {
    assert_eq!(DecodeError::ChecksumMismatch.message(), "Checksum mismatch");
    assert_eq!(DecodeError::Corrupted.message(), "Corrupted input");
    assert_eq!(
        DecodeError::ExpectedConsonant.message(),
        "Expected consonant, got something else"
    );
    assert_eq!(
        DecodeError::ExpectedVowel.message(),
        "Expected vowel, got something else"
    );
    assert_eq!(
        DecodeError::InvalidByte(0).message(),
        "Encountered byte outside of encoding alphabet at position 0"
    );
    assert_eq!(
        DecodeError::InvalidByte(123).message(),
        "Encountered byte outside of encoding alphabet at position 123"
    );
    assert_eq!(
        DecodeError::MalformedHeader.message(),
        "Missing required 'x' header"
    );
    assert_eq!(
        DecodeError::MalformedTrailer.message(),
        "Missing required 'x' trailer"
    );
}

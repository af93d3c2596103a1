//! The mathematical model of the Bubble Babble encoding.
//!
//! Everything here is specification code.  [`encode_spec`] gives the exact
//! byte sequence an encoding consists of, and [`decode_spec`] gives the exact
//! result of decoding, error cases included.  The executable functions in
//! [`crate::encode`] and [`crate::decode`] are proved to return precisely
//! these values, and [`crate::laws`] proves the encoding's global properties
//! in terms of them.

use vstd::prelude::*;

use crate::DecodeError;

verus! {

/// The header and trailer byte, ASCII `x`.  The same byte serves as the
/// sentinel consonant marking a parity tuple; it never encodes a data nibble.
pub const SENTINEL: u8 = 120;

/// The byte separating encoded groups, ASCII `-`.
pub const SEPARATOR: u8 = 45;

/// The vowel with the given index, from the ordered alphabet `"aeiouy"`.
///
/// Total for convenience; indices outside `[0, 6)` give the last vowel.
pub open spec fn spec_vowel(i: int) -> u8 {
    if i == 0 {
        97
    } else if i == 1 {
        101
    } else if i == 2 {
        105
    } else if i == 3 {
        111
    } else if i == 4 {
        117
    } else {
        121
    }
}

/// The consonant with the given index, from the ordered alphabet
/// `"bcdfghklmnprstvz"`.
///
/// The sentinel `x` is deliberately not part of this table: it marks the
/// header, the trailer and the middle of a parity tuple, never a data nibble.
/// Total for convenience; indices outside `[0, 16)` give the last consonant.
pub open spec fn spec_consonant(i: int) -> u8 {
    if i == 0 {
        98
    } else if i == 1 {
        99
    } else if i == 2 {
        100
    } else if i == 3 {
        102
    } else if i == 4 {
        103
    } else if i == 5 {
        104
    } else if i == 6 {
        107
    } else if i == 7 {
        108
    } else if i == 8 {
        109
    } else if i == 9 {
        110
    } else if i == 10 {
        112
    } else if i == 11 {
        114
    } else if i == 12 {
        115
    } else if i == 13 {
        116
    } else if i == 14 {
        118
    } else {
        122
    }
}

/// The index of a byte in the vowel alphabet, or `None` if it is no vowel.
pub open spec fn spec_vowel_index(b: u8) -> Option<u8> {
    if b == 97 {
        Some(0u8)
    } else if b == 101 {
        Some(1u8)
    } else if b == 105 {
        Some(2u8)
    } else if b == 111 {
        Some(3u8)
    } else if b == 117 {
        Some(4u8)
    } else if b == 121 {
        Some(5u8)
    } else {
        None
    }
}

/// The index of a byte in the consonant alphabet, or `None` if it is no
/// data consonant.  The sentinel `x` gives `None`.
pub open spec fn spec_consonant_index(b: u8) -> Option<u8> {
    if b == 98 {
        Some(0u8)
    } else if b == 99 {
        Some(1u8)
    } else if b == 100 {
        Some(2u8)
    } else if b == 102 {
        Some(3u8)
    } else if b == 103 {
        Some(4u8)
    } else if b == 104 {
        Some(5u8)
    } else if b == 107 {
        Some(6u8)
    } else if b == 108 {
        Some(7u8)
    } else if b == 109 {
        Some(8u8)
    } else if b == 110 {
        Some(9u8)
    } else if b == 112 {
        Some(10u8)
    } else if b == 114 {
        Some(11u8)
    } else if b == 115 {
        Some(12u8)
    } else if b == 116 {
        Some(13u8)
    } else if b == 118 {
        Some(14u8)
    } else if b == 122 {
        Some(15u8)
    } else {
        None
    }
}

/// Membership in the full 24-byte encoding alphabet: the six vowels, the
/// sixteen data consonants, the sentinel `x` and the separator `-`.
pub open spec fn spec_is_alphabet(b: u8) -> bool {
    spec_vowel_index(b) is Some || spec_consonant_index(b) is Some || b == SENTINEL || b == SEPARATOR
}

/// The checksum recurrence, applied once per fully consumed 2-byte group:
/// `cs' = (cs*5 + b1*7 + b2) mod 36`.
pub open spec fn next_checksum(cs: int, b1: u8, b2: u8) -> int {
    (cs * 5 + b1 * 7 + b2) % 36
}

/// The three characters of a data triple: the byte's top two bits and bottom
/// two bits become vowels, each offset by the running checksum, and its middle
/// four bits become a consonant.
pub open spec fn enc_triple(v: u8, cs: int) -> Seq<u8> {
    seq![
        spec_vowel((v / 64 + cs) % 6),
        spec_consonant(((v / 4) % 16) as int),
        spec_vowel((v % 4 + cs / 6) % 6),
    ]
}

/// The pair for a group's second byte: its two nibbles as consonants, with
/// the separator between them.  The pair takes no checksum offset.
pub open spec fn enc_pair(v: u8) -> Seq<u8> {
    seq![spec_consonant((v / 16) as int), SEPARATOR, spec_consonant((v % 16) as int)]
}

/// The six characters a full 2-byte group contributes to the encoding.
pub open spec fn enc_group(b1: u8, b2: u8, cs: int) -> Seq<u8> {
    enc_triple(b1, cs) + enc_pair(b2)
}

/// The final parity tuple of an even-length input: the checksum itself,
/// split mod and div 6 into two vowels around the sentinel consonant.
pub open spec fn enc_parity(cs: int) -> Seq<u8> {
    seq![spec_vowel(cs % 6), SENTINEL, spec_vowel(cs / 6)]
}

/// The interior of the encoding of `data` at running checksum `cs`: one
/// 6-character group per 2-byte chunk, then a final triple (odd length) or
/// parity tuple (even length).
pub open spec fn enc_groups(data: Seq<u8>, cs: int) -> Seq<u8>
    decreases data.len(),
{
    if data.len() >= 2 {
        enc_group(data[0], data[1], cs) + enc_groups(
            data.skip(2),
            next_checksum(cs, data[0], data[1]),
        )
    } else if data.len() == 1 {
        enc_triple(data[0], cs)
    } else {
        enc_parity(cs)
    }
}

/// The full encoding of `data` as bytes: header, interior groups starting at
/// checksum 1, trailer.  The empty input comes out as `"xexax"`, the parity
/// tuple of the initial checksum.
pub open spec fn encode_spec(data: Seq<u8>) -> Seq<u8> {
    seq![SENTINEL] + enc_groups(data, 1) + seq![SENTINEL]
}

/// The full encoding of `data` as text.  Every encoding byte is ASCII, so
/// each becomes one character with the same code point.
pub open spec fn encoded_text(data: Seq<u8>) -> Seq<char> {
    encode_spec(data).map_values(|b: u8| b as char)
}

/// The canonical encoding of the empty byte sequence.
pub open spec fn xexax() -> Seq<u8> {
    seq![SENTINEL, 101, SENTINEL, 97, SENTINEL]
}

/// Reversing a data triple `(a, b, c)` of alphabet indices at checksum `cs`.
/// The two recovered 2-bit fields must be below 4; values 4 and 5 are
/// impossible for a genuine triple and mean the input is corrupted.
pub open spec fn dec_triple(a: u8, b: u8, c: u8, cs: int) -> Result<u8, DecodeError> {
    let high = (a + 6 - cs % 6) % 6;
    let low = (c + 6 - (cs / 6) % 6) % 6;
    if high >= 4 || low >= 4 {
        Err(DecodeError::Corrupted)
    } else {
        Ok((high * 64 + b * 4 + low) as u8)
    }
}

/// Reversing a pair of consonant indices into the byte they encode.
pub open spec fn dec_pair(a: u8, b: u8) -> u8 {
    (a * 16 + b) as u8
}

/// Decoding one 6-character window, given as its five letter positions (the
/// separator between `up` and `down` has already been checked).  Each
/// character must come from the right alphabet class, and the triple must
/// reverse cleanly.
#[verifier::opaque]
pub open spec fn dec_window(left: u8, mid: u8, right: u8, up: u8, down: u8, cs: int) -> Result<
    (u8, u8),
    DecodeError,
> {
    match spec_vowel_index(left) {
        None => Err(DecodeError::ExpectedVowel),
        Some(a) => match spec_consonant_index(mid) {
            None => Err(DecodeError::ExpectedConsonant),
            Some(b) => match spec_vowel_index(right) {
                None => Err(DecodeError::ExpectedVowel),
                Some(c) => match dec_triple(a, b, c, cs) {
                    Err(e) => Err(e),
                    Ok(byte1) => match spec_consonant_index(up) {
                        None => Err(DecodeError::ExpectedConsonant),
                        Some(d) => match spec_consonant_index(down) {
                            None => Err(DecodeError::ExpectedConsonant),
                            Some(e2) => Ok((byte1, dec_pair(d, e2))),
                        },
                    },
                },
            },
        },
    }
}

/// Decoding the trailing characters left after all full 6-character windows.
/// Exactly three may remain: a parity tuple (sentinel in the middle), which
/// must match the running checksum, or a final data triple.  Any other
/// remainder length is corrupted input.
#[verifier::opaque]
pub open spec fn dec_final(rem: Seq<u8>, cs: int) -> Result<Seq<u8>, DecodeError> {
    if rem.len() == 3 {
        match spec_vowel_index(rem[0]) {
            None => Err(DecodeError::ExpectedVowel),
            Some(a) => match spec_vowel_index(rem[2]) {
                None => Err(DecodeError::ExpectedVowel),
                Some(c) => if rem[1] == SENTINEL {
                    if a == cs % 6 && c == cs / 6 {
                        Ok(Seq::empty())
                    } else {
                        Err(DecodeError::ChecksumMismatch)
                    }
                } else {
                    match spec_consonant_index(rem[1]) {
                        None => Err(DecodeError::ExpectedConsonant),
                        Some(b) => match dec_triple(a, b, c, cs) {
                            Err(e) => Err(e),
                            Ok(v) => Ok(seq![v]),
                        },
                    }
                },
            },
        }
    } else {
        Err(DecodeError::Corrupted)
    }
}

/// Decoding the interior left to right.  Full 6-character windows are
/// consumed while at least six characters remain, and each must carry the
/// separator at its fifth position: any other byte there means the text no
/// longer lines up with the rolling checksum, and the scan stops at that
/// point with `ChecksumMismatch` — deliberately so, never by skipping ahead,
/// so that no tampered text can reach a shorter but well-checksummed decode.
/// Once fewer than six characters remain they must form the final tuple.
#[verifier::opaque]
pub open spec fn dec_tail(enc: Seq<u8>, cs: int) -> Result<Seq<u8>, DecodeError>
    decreases enc.len(),
{
    if enc.len() < 6 {
        dec_final(enc, cs)
    } else if enc[4] != SEPARATOR {
        Err(DecodeError::ChecksumMismatch)
    } else {
        match dec_window(enc[0], enc[1], enc[2], enc[3], enc[5], cs) {
            Err(e) => Err(e),
            Ok((b1, b2)) => match dec_tail(enc.skip(6), next_checksum(cs, b1, b2)) {
                Err(e) => Err(e),
                Ok(rest) => Ok(seq![b1, b2] + rest),
            },
        }
    }
}

/// The position of the first byte outside the encoding alphabet, if any.
pub open spec fn first_invalid(enc: Seq<u8>) -> Option<int>
    decreases enc.len(),
{
    if enc.len() == 0 {
        None
    } else if !spec_is_alphabet(enc[0]) {
        Some(0 as int)
    } else {
        match first_invalid(enc.skip(1)) {
            None => None,
            Some(i) => Some(i + 1),
        }
    }
}

/// The exact result of decoding `s`, scanning left to right and reporting
/// the earliest anomaly:
///
/// - the canonical empty form decodes to no bytes;
/// - the input must carry the `x` header and trailer, the header check
///   coming first;
/// - every interior byte must be in the alphabet, the first offender
///   reported by its position in `s` (the header holds position 0);
/// - the interior must then decode as full windows plus a final tuple.
pub open spec fn decode_spec(s: Seq<u8>) -> Result<Seq<u8>, DecodeError> {
    if s == xexax() {
        Ok(Seq::empty())
    } else if s.len() >= 2 && s[0] == SENTINEL && s[s.len() - 1] == SENTINEL {
        match first_invalid(s.subrange(1, s.len() - 1)) {
            Some(i) => Err(DecodeError::InvalidByte((i + 1) as usize)),
            None => dec_tail(s.subrange(1, s.len() - 1), 1),
        }
    } else if s.len() >= 1 && s[0] == SENTINEL {
        Err(DecodeError::MalformedTrailer)
    } else if s.len() >= 1 && s[s.len() - 1] == SENTINEL {
        Err(DecodeError::MalformedHeader)
    } else {
        Err(DecodeError::Corrupted)
    }
}

/// Prefixing decoded bytes onto the result of decoding the rest of the
/// input; an error from the rest stands as it is.
pub open spec fn prepend(pre: Seq<u8>, r: Result<Seq<u8>, DecodeError>) -> Result<
    Seq<u8>,
    DecodeError,
> {
    match r {
        Ok(rest) => Ok(pre + rest),
        Err(e) => Err(e),
    }
}

/// The decimal digits of `n`, most significant first.
pub open spec fn spec_decimal(n: nat) -> Seq<u8>
    decreases n,
{
    if n < 10 {
        seq![(48 + n) as u8]
    } else {
        spec_decimal(n / 10) + seq![(48 + n % 10) as u8]
    }
}

/// The text of each error's human-readable message.
pub open spec fn spec_message(e: DecodeError) -> Seq<char> {
    match e {
        DecodeError::ChecksumMismatch => "Checksum mismatch"@,
        DecodeError::Corrupted => "Corrupted input"@,
        DecodeError::ExpectedConsonant => "Expected consonant, got something else"@,
        DecodeError::ExpectedVowel => "Expected vowel, got something else"@,
        DecodeError::InvalidByte(pos) => "Encountered byte outside of encoding alphabet at position "@
            + spec_decimal(pos as nat).map_values(|b: u8| b as char),
        DecodeError::MalformedHeader => "Missing required 'x' header"@,
        DecodeError::MalformedTrailer => "Missing required 'x' trailer"@,
    }
}

} // verus!

//! The Bubble Babble encoder.
//!
//! [`inner`] walks the input two bytes at a time, emitting one six-character
//! group per full 2-byte chunk and carrying the rolling checksum forward,
//! then closes with a final data triple (odd byte left over) or a parity
//! tuple (none left over).  Its output is proved equal to
//! [`crate::model::encoded_text`].

use vstd::prelude::*;

use crate::laws::lemma_encode_spec_ascii;
use crate::model::{
    enc_group, enc_groups, enc_parity, enc_triple, encode_spec, encoded_text, next_checksum,
    spec_consonant, spec_vowel, SENTINEL, SEPARATOR,
};

verus! {

/// The vowel with the given index, from `"aeiouy"`.
fn vowel(i: u8) -> (r: u8)
    requires
        i < 6,
    ensures
        r == spec_vowel(i as int),
{
    match i {
        0 => 97,
        1 => 101,
        2 => 105,
        3 => 111,
        4 => 117,
        _ => 121,
    }
}

/// The consonant with the given index, from `"bcdfghklmnprstvz"`.
fn consonant(i: u8) -> (r: u8)
    requires
        i < 16,
    ensures
        r == spec_consonant(i as int),
{
    match i {
        0 => 98,
        1 => 99,
        2 => 100,
        3 => 102,
        4 => 103,
        5 => 104,
        6 => 107,
        7 => 108,
        8 => 109,
        9 => 110,
        10 => 112,
        11 => 114,
        12 => 115,
        13 => 116,
        14 => 118,
        _ => 122,
    }
}

/// Emit the data triple for `raw_byte` at the current checksum: its top two
/// bits and bottom two bits as checksum-offset vowels around the consonant
/// for its middle four bits.
fn odd_partial(raw_byte: u8, checksum: u8, buf: &mut Vec<u8>)
    requires
        checksum < 36,
    ensures
        final(buf)@ == old(buf)@ + enc_triple(raw_byte, checksum as int),
{
    let a = (raw_byte / 64 + checksum) % 6;
    let b = (raw_byte / 4) % 16;
    let c = (raw_byte % 4 + checksum / 6) % 6;
    buf.push(vowel(a));
    buf.push(consonant(b));
    buf.push(vowel(c));
    proof {
        assert(final(buf)@ =~= old(buf)@ + enc_triple(raw_byte, checksum as int));
    }
}

/// Emit the parity tuple for the final checksum: its residue and quotient
/// mod 6 as vowels around the sentinel consonant.
fn even_partial(checksum: u8, buf: &mut Vec<u8>)
    requires
        checksum < 36,
    ensures
        final(buf)@ == old(buf)@ + enc_parity(checksum as int),
{
    let a = checksum % 6;
    let c = checksum / 6;
    buf.push(vowel(a));
    buf.push(SENTINEL);
    buf.push(vowel(c));
    proof {
        assert(final(buf)@ =~= old(buf)@ + enc_parity(checksum as int));
    }
}

/// Relies on `String::from_utf8`: a byte sequence that is valid UTF-8
/// converts to the string with exactly those bytes, and ASCII bytes (always
/// valid UTF-8) become one character each, with the same code point.
#[verifier::external_body]
pub(crate) fn ascii_to_string(bytes: Vec<u8>) -> (r: String)
    requires
        forall|i: int| 0 <= i < bytes@.len() ==> bytes@[i] < 128,
    ensures
        r@ == bytes@.map_values(|b: u8| b as char),
{
    match String::from_utf8(bytes) {
        Ok(s) => s,
        Err(_) => String::new(),
    }
}

/// Encode `data`: header, one six-character group per 2-byte chunk, a final
/// triple or parity tuple, trailer.  Total: every input has an encoding, and
/// the empty input comes out as the canonical `"xexax"`.
pub fn inner(data: &[u8]) -> (r: String)
    ensures
        r@ == encoded_text(data@),
        r@.map_values(|c: char| c as u8) == encode_spec(data@),
{
    // one output buffer, sized by a cheap upper bound: six characters per
    // 2-byte group, plus the final tuple and both delimiters (the bound
    // cannot overflow for a real slice; any hint is sound)
    let cap = match (data.len() / 2).checked_mul(6) {
        Some(c) => c.saturating_add(5),
        None => 0,
    };
    let mut out: Vec<u8> = Vec::with_capacity(cap);
    out.push(SENTINEL);
    let mut checksum: u8 = 1;
    let mut i: usize = 0;
    proof {
        assert(data@.skip(0) =~= data@);
        assert(out@ =~= seq![SENTINEL]);
    }
    while data.len() - i >= 2
        invariant
            i <= data@.len(),
            checksum < 36,
            encode_spec(data@) == out@ + enc_groups(data@.skip(i as int), checksum as int)
                + seq![SENTINEL],
        decreases data@.len() - i,
    {
        let left = data[i];
        let right = data[i + 1];
        let ghost prev = out@;
        let ghost cs = checksum as int;
        odd_partial(left, checksum, &mut out);
        out.push(consonant(right / 16));
        out.push(SEPARATOR);
        out.push(consonant(right % 16));
        checksum = ((checksum as u16 * 5 + left as u16 * 7 + right as u16) % 36) as u8;
        proof {
            let d = data@.skip(i as int);
            assert(d[0] == left && d[1] == right);
            assert(d.skip(2) =~= data@.skip(i as int + 2));
            assert(out@ =~= prev + enc_group(left, right, cs));
            assert(checksum as int == next_checksum(cs, left, right));
            assert(prev + (enc_group(left, right, cs) + enc_groups(d.skip(2), checksum as int))
                =~= out@ + enc_groups(data@.skip(i as int + 2), checksum as int));
        }
        i = i + 2;
    }
    let ghost cs = checksum as int;
    let ghost prev = out@;
    if i < data.len() {
        odd_partial(data[i], checksum, &mut out);
        proof {
            let d = data@.skip(i as int);
            assert(d.len() == 1 && d[0] == data@[i as int]);
            assert(enc_groups(d, cs) == enc_triple(d[0], cs));
        }
    } else {
        even_partial(checksum, &mut out);
        proof {
            let d = data@.skip(i as int);
            assert(d.len() == 0);
            assert(enc_groups(d, cs) == enc_parity(cs));
        }
    }
    out.push(SENTINEL);
    proof {
        assert(out@ =~= prev + enc_groups(data@.skip(i as int), cs) + seq![SENTINEL]);
        assert(out@ == encode_spec(data@));
        lemma_encode_spec_ascii(data@);
    }
    let r = ascii_to_string(out);
    proof {
        assert(r@.map_values(|c: char| c as u8) =~= encode_spec(data@));
    }
    r
}

} // verus!

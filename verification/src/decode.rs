//! The Bubble Babble decoder.
//!
//! [`inner`] validates its input in one pass, left to right: the canonical
//! empty form, the header and trailer, alphabet membership, then the interior
//! as full six-character windows followed by a final data triple or parity
//! tuple, recomputing the encoder's checksum as it goes.  Its result is
//! proved equal to [`crate::model::decode_spec`].

use vstd::prelude::*;

use crate::laws::{
    lemma_first_invalid_at, lemma_first_invalid_none, lemma_prepend_assoc, lemma_tail_desync,
    lemma_tail_step, lemma_tail_step_err, lemma_tail_to_final,
};
use crate::model::{
    dec_final, dec_pair, dec_tail, dec_triple, dec_window, decode_spec, next_checksum, prepend,
    spec_consonant_index, spec_is_alphabet, spec_vowel_index, xexax, SENTINEL, SEPARATOR,
};
use crate::DecodeError;

verus! {

/// The index of a byte in the consonant alphabet, or `None` if it is no
/// data consonant.  The sentinel `x` gives `None`.
fn index_from_consonant(consonant: u8) -> (r: Option<u8>)
    ensures
        r == spec_consonant_index(consonant),
{
    match consonant {
        98 => Some(0),
        99 => Some(1),
        100 => Some(2),
        102 => Some(3),
        103 => Some(4),
        104 => Some(5),
        107 => Some(6),
        108 => Some(7),
        109 => Some(8),
        110 => Some(9),
        112 => Some(10),
        114 => Some(11),
        115 => Some(12),
        116 => Some(13),
        118 => Some(14),
        122 => Some(15),
        _ => None,
    }
}

/// The index of a byte in the vowel alphabet, or `None` if it is no vowel.
fn index_from_vowel(vowel: u8) -> (r: Option<u8>)
    ensures
        r == spec_vowel_index(vowel),
{
    match vowel {
        97 => Some(0),
        101 => Some(1),
        105 => Some(2),
        111 => Some(3),
        117 => Some(4),
        121 => Some(5),
        _ => None,
    }
}

/// Whether a byte belongs to the full 24-byte encoding alphabet.
fn in_alphabet(b: u8) -> (r: bool)
    ensures
        r == spec_is_alphabet(b),
{
    index_from_vowel(b).is_some() || index_from_consonant(b).is_some() || b == SENTINEL || b
        == SEPARATOR
}

/// Reverse a data triple of alphabet indices at the current checksum,
/// stripping the checksum offset from the two vowel fields.  A stripped
/// field of 4 or 5 cannot come from a 2-bit value: the input is corrupted.
fn decode_3_tuple(byte1: u8, byte2: u8, byte3: u8, checksum: u8) -> (r: Result<u8, DecodeError>)
    requires
        byte1 < 6,
        byte2 < 16,
        byte3 < 6,
        checksum < 36,
    ensures
        r == dec_triple(byte1, byte2, byte3, checksum as int),
{
    let high = (byte1 + 6 - checksum % 6) % 6;
    let low = (byte3 + 6 - (checksum / 6) % 6) % 6;
    if high >= 4 || low >= 4 {
        Err(DecodeError::Corrupted)
    } else {
        Ok(high * 64 + byte2 * 4 + low)
    }
}

/// Reverse a pair of consonant indices into the byte they encode.
fn decode_2_tuple(byte1: u8, byte2: u8) -> (r: u8)
    requires
        byte1 < 16,
        byte2 < 16,
    ensures
        r == dec_pair(byte1, byte2),
{
    byte1 * 16 + byte2
}

/// Decode one full six-character window, given as its five letter positions
/// (the separator between `up` and `down` has already been checked).
fn decode_window(left: u8, mid: u8, right: u8, up: u8, down: u8, checksum: u8) -> (r: Result<
    (u8, u8),
    DecodeError,
>)
    requires
        checksum < 36,
    ensures
        r == dec_window(left, mid, right, up, down, checksum as int),
{
    proof {
        reveal(crate::model::dec_window);
    }
    let a = match index_from_vowel(left) {
        Some(i) => i,
        None => { return Err(DecodeError::ExpectedVowel) },
    };
    let b = match index_from_consonant(mid) {
        Some(i) => i,
        None => { return Err(DecodeError::ExpectedConsonant) },
    };
    let c = match index_from_vowel(right) {
        Some(i) => i,
        None => { return Err(DecodeError::ExpectedVowel) },
    };
    let byte1 = match decode_3_tuple(a, b, c, checksum) {
        Ok(v) => v,
        Err(e) => { return Err(e) },
    };
    let d = match index_from_consonant(up) {
        Some(i) => i,
        None => { return Err(DecodeError::ExpectedConsonant) },
    };
    let e = match index_from_consonant(down) {
        Some(i) => i,
        None => { return Err(DecodeError::ExpectedConsonant) },
    };
    Ok((byte1, decode_2_tuple(d, e)))
}

/// Decode the final three characters: a parity tuple (sentinel in the
/// middle), which yields no byte but must match the running checksum, or a
/// final data triple, which yields one byte.
fn decode_final_tuple(left: u8, mid: u8, right: u8, checksum: u8) -> (r: Result<
    Option<u8>,
    DecodeError,
>)
    requires
        checksum < 36,
    ensures
        (match r {
            Ok(Some(v)) => dec_final(seq![left, mid, right], checksum as int) == Ok::<
                Seq<u8>,
                DecodeError,
            >(seq![v]),
            Ok(None) => dec_final(seq![left, mid, right], checksum as int) == Ok::<
                Seq<u8>,
                DecodeError,
            >(Seq::empty()),
            Err(e) => dec_final(seq![left, mid, right], checksum as int) == Err::<
                Seq<u8>,
                DecodeError,
            >(e),
        }),
{
    proof {
        reveal(crate::model::dec_final);
    }
    let a = match index_from_vowel(left) {
        Some(v) => v,
        None => { return Err(DecodeError::ExpectedVowel) },
    };
    let c = match index_from_vowel(right) {
        Some(v) => v,
        None => { return Err(DecodeError::ExpectedVowel) },
    };
    if mid == SENTINEL {
        if a != checksum % 6 || c != checksum / 6 {
            return Err(DecodeError::ChecksumMismatch);
        }
        return Ok(None);
    }
    let b = match index_from_consonant(mid) {
        Some(v) => v,
        None => { return Err(DecodeError::ExpectedConsonant) },
    };
    match decode_3_tuple(a, b, c, checksum) {
        Err(e) => Err(e),
        Ok(v) => Ok(Some(v)),
    }
}

/// Decode the interior of `encoded` (everything between header and
/// trailer): full six-character windows, each of which must carry its
/// separator at the fifth position, then the final data triple or parity
/// tuple, checked against the recomputed checksum.  A window whose separator
/// slot holds another byte no longer lines up with the rolling checksum and
/// fails at once with `ChecksumMismatch`.
#[verifier::rlimit(100)]
fn decode_groups(encoded: &[u8]) -> (r: Result<Vec<u8>, DecodeError>)
    requires
        encoded@.len() >= 2,
    ensures
        (match r {
            Ok(v) => dec_tail(encoded@.subrange(1, encoded@.len() - 1), 1) == Ok::<
                Seq<u8>,
                DecodeError,
            >(v@),
            Err(e) => dec_tail(encoded@.subrange(1, encoded@.len() - 1), 1) == Err::<
                Seq<u8>,
                DecodeError,
            >(e),
        }),
{
    let n = encoded.len();
    let ghost enc = encoded@.subrange(1, n as int - 1);
    let end = n - 1;
    // one output buffer, sized by a cheap upper bound: two bytes per full
    // six-character window, and one more for a final data triple (the bound
    // cannot overflow for a real slice; any hint is sound)
    let cap = if n == 5 {
        1
    } else {
        match (n.saturating_add(1) / 6).checked_mul(2) {
            Some(c) => c,
            None => 0,
        }
    };
    let mut decoded: Vec<u8> = Vec::with_capacity(cap);
    let mut checksum: u8 = 1;
    let mut i: usize = 1;
    proof {
        assert(enc.skip(0) =~= enc);
        assert(prepend(decoded@, dec_tail(enc, 1)) == dec_tail(enc, 1));
    }
    while end - i >= 6 && encoded[i + 4] == SEPARATOR
        invariant
            n == encoded@.len(),
            n >= 2,
            end == n - 1,
            1 <= i <= end,
            checksum < 36,
            enc == encoded@.subrange(1, n as int - 1),
            dec_tail(enc, 1) == prepend(decoded@, dec_tail(enc.skip(i as int - 1), checksum as int)),
        decreases end - i,
    {
        let w = decode_window(
            encoded[i],
            encoded[i + 1],
            encoded[i + 2],
            encoded[i + 3],
            encoded[i + 5],
            checksum,
        );
        proof {
            let j = i as int - 1;
            assert(enc[j] == encoded@[i as int]);
            assert(enc[j + 1] == encoded@[i as int + 1]);
            assert(enc[j + 2] == encoded@[i as int + 2]);
            assert(enc[j + 3] == encoded@[i as int + 3]);
            assert(enc[j + 4] == encoded@[i as int + 4]);
            assert(enc[j + 5] == encoded@[i as int + 5]);
        }
        match w {
            Err(e) => {
                proof {
                    lemma_tail_step_err(enc, i as int - 1, checksum as int, e);
                }
                return Err(e);
            },
            Ok((b1, b2)) => {
                let ghost prev = decoded@;
                let ghost cs = checksum as int;
                decoded.push(b1);
                decoded.push(b2);
                checksum = ((checksum as u16 * 5 + b1 as u16 * 7 + b2 as u16) % 36) as u8;
                proof {
                    let j = i as int - 1;
                    assert(checksum as int == next_checksum(cs, b1, b2));
                    lemma_tail_step(enc, j, cs, b1, b2);
                    lemma_prepend_assoc(
                        prev,
                        seq![b1, b2],
                        dec_tail(enc.skip(j + 6), checksum as int),
                    );
                    assert(decoded@ =~= prev + seq![b1, b2]);
                }
                i = i + 6;
            },
        }
    }
    // the loop stopped: either a full window lost its separator -- the text
    // is out of step with the checksum -- or fewer than six characters
    // remain and they must form the final tuple
    if end - i >= 6 {
        proof {
            assert(enc[i as int - 1 + 4] == encoded@[i as int + 4]);
            lemma_tail_desync(enc, i as int - 1, checksum as int);
        }
        return Err(DecodeError::ChecksumMismatch);
    }
    let rem = end - i;
    proof {
        lemma_tail_to_final(enc, i as int - 1, checksum as int);
    }
    let ghost fin = enc.skip(i as int - 1);
    if rem == 3 {
        proof {
            assert(fin[0] == encoded@[i as int]);
            assert(fin[1] == encoded@[i as int + 1]);
            assert(fin[2] == encoded@[i as int + 2]);
            assert(fin =~= seq![
                encoded@[i as int],
                encoded@[i as int + 1],
                encoded@[i as int + 2],
            ]);
        }
        match decode_final_tuple(encoded[i], encoded[i + 1], encoded[i + 2], checksum) {
            Err(e) => Err(e),
            Ok(None) => {
                proof {
                    assert(decoded@ + Seq::<u8>::empty() =~= decoded@);
                }
                Ok(decoded)
            },
            Ok(Some(v)) => {
                let ghost prev = decoded@;
                decoded.push(v);
                proof {
                    assert(decoded@ =~= prev + seq![v]);
                }
                Ok(decoded)
            },
        }
    } else {
        proof {
            assert(fin.len() == rem);
            reveal(crate::model::dec_final);
        }
        Err(DecodeError::Corrupted)
    }
}

/// Decode `encoded`: the canonical empty form aside, the input must carry
/// the header and trailer, hold only alphabet bytes, and consist of full
/// six-character windows -- separators in place -- plus a final data triple
/// or parity tuple whose checksum matches the recomputed one.  The first
/// anomaly in a left-to-right scan decides the error.
pub fn inner(encoded: &[u8]) -> (r: Result<Vec<u8>, DecodeError>)
    ensures
        (match r {
            Ok(v) => decode_spec(encoded@) == Ok::<Seq<u8>, DecodeError>(v@),
            Err(e) => decode_spec(encoded@) == Err::<Seq<u8>, DecodeError>(e),
        }),
{
    let n = encoded.len();
    // the canonical encoding of the empty byte sequence: test for it directly
    if n == 5 && encoded[0] == SENTINEL && encoded[1] == 101 && encoded[2] == SENTINEL
        && encoded[3] == 97 && encoded[4] == SENTINEL {
        proof {
            assert(encoded@ =~= xexax());
        }
        return Ok(Vec::new());
    }
    proof {
        assert(encoded@ != xexax()) by {
            if encoded@ == xexax() {
                assert(encoded@.len() == 5);
                assert(encoded@[0] == SENTINEL && encoded@[1] == 101 && encoded@[2] == SENTINEL
                    && encoded@[3] == 97 && encoded@[4] == SENTINEL);
            }
        }
    }
    // header before trailer: some malformed inputs match both conditions
    if n < 2 || encoded[0] != SENTINEL || encoded[n - 1] != SENTINEL {
        if n >= 1 && encoded[0] == SENTINEL {
            return Err(DecodeError::MalformedTrailer);
        }
        if n >= 1 && encoded[n - 1] == SENTINEL {
            return Err(DecodeError::MalformedHeader);
        }
        return Err(DecodeError::Corrupted);
    }
    let ghost enc = encoded@.subrange(1, n as int - 1);
    // every interior byte must be in the alphabet; the first that is not is
    // reported by its position in the input, the header holding position 0
    let mut pos: usize = 1;
    while pos < n - 1
        invariant
            n == encoded@.len(),
            n >= 2,
            1 <= pos <= n - 1,
            enc == encoded@.subrange(1, n as int - 1),
            encoded@ != xexax(),
            encoded@[0] == SENTINEL,
            encoded@[n - 1] == SENTINEL,
            forall|k: int| 0 <= k < pos - 1 ==> spec_is_alphabet(#[trigger] enc[k]),
        decreases n - 1 - pos,
    {
        if !in_alphabet(encoded[pos]) {
            proof {
                assert(enc[pos - 1] == encoded@[pos as int]);
                lemma_first_invalid_at(enc, pos as int - 1);
                assert((pos as int - 1 + 1) as usize == pos);
            }
            return Err(DecodeError::InvalidByte(pos));
        }
        pos = pos + 1;
    }
    proof {
        lemma_first_invalid_none(enc);
        assert(decode_spec(encoded@) == dec_tail(enc, 1));
    }
    decode_groups(encoded)
}

} // verus!

//! Proved properties of the Bubble Babble encoding.
//!
//! The public lemmas at the end of this file state the encoding's laws over
//! the model in [`crate::model`]: decoding an encoding always returns the
//! original bytes, an out-of-alphabet byte is reported at its position, and
//! overwriting any separator with another alphabet byte always fails the
//! checksum.

use vstd::arithmetic::div_mod::{
    lemma_add_mod_noop_right, lemma_div_denominator, lemma_div_pos_is_pos,
    lemma_fundamental_div_mod, lemma_hoist_over_denominator, lemma_mod_add_multiples_vanish,
    lemma_mod_division_less_than_divisor, lemma_mod_sub_multiples_vanish, lemma_small_mod,
};
use vstd::prelude::*;
use vstd::utf8::{encode_utf8, is_ascii_chars, is_ascii_chars_encode_utf8};

use crate::model::{
    dec_final, dec_pair, dec_tail, dec_triple, dec_window, decode_spec, enc_group, enc_groups,
    enc_parity, enc_triple, encode_spec, encoded_text, first_invalid, next_checksum,
    prepend, spec_consonant, spec_consonant_index, spec_decimal, spec_is_alphabet, spec_vowel,
    spec_vowel_index, xexax, SENTINEL, SEPARATOR,
};
use crate::DecodeError;

verus! {

/// Every alphabet byte is ASCII.
pub proof fn lemma_alphabet_ascii(b: u8)
    requires
        spec_is_alphabet(b),
    ensures
        b < 128,
{
}

/// Looking a vowel up by the byte the table gives for an index in range
/// returns that index.
pub proof fn lemma_vowel_index_inverse(i: int)
    requires
        0 <= i < 6,
    ensures
        spec_vowel_index(spec_vowel(i)) == Some(i as u8),
{
}

/// Looking a consonant up by the byte the table gives for an index in range
/// returns that index.
pub proof fn lemma_consonant_index_inverse(i: int)
    requires
        0 <= i < 16,
    ensures
        spec_consonant_index(spec_consonant(i)) == Some(i as u8),
{
}

/// The checksum recurrence stays in `[0, 36)`.
pub proof fn lemma_next_checksum_range(cs: int, b1: u8, b2: u8)
    ensures
        0 <= next_checksum(cs, b1, b2) < 36,
{
    lemma_mod_division_less_than_divisor(cs * 5 + b1 * 7 + b2, 36);
}

/// A checksum in range splits into a residue and a quotient mod 6, both
/// vowel indices.
pub proof fn lemma_checksum_parts(cs: int)
    requires
        0 <= cs < 36,
    ensures
        0 <= cs % 6 < 6,
        0 <= cs / 6 < 6,
        cs == 6 * (cs / 6) + cs % 6,
{
    lemma_fundamental_div_mod(cs, 6);
    lemma_mod_division_less_than_divisor(cs, 6);
}

/// Adding an offset mod 6 and taking it away again gives the value back:
/// the decoder's reversal of the encoder's checksum offset.
pub proof fn lemma_mod_offset_cancel(x: int, y: int)
    requires
        0 <= x < 6,
        0 <= y < 6,
    ensures
        ((x + y) % 6 + 6 - y) % 6 == x,
{
    if x + y < 6 {
        lemma_small_mod((x + y) as nat, 6);
        lemma_mod_add_multiples_vanish(x, 6);
        lemma_small_mod(x as nat, 6);
    } else {
        lemma_mod_sub_multiples_vanish(x + y, 6);
        lemma_small_mod((x + y - 6) as nat, 6);
        lemma_small_mod(x as nat, 6);
    }
}

/// A byte splits into the three fields a triple packs: two bits, four bits,
/// two bits.
pub proof fn lemma_byte_split_triple(v: u8)
    ensures
        0 <= v / 64 < 4,
        0 <= (v / 4) % 16 < 16,
        0 <= v % 4 < 4,
        v == 64 * (v / 64) + 4 * ((v / 4) % 16) + v % 4,
{
    lemma_fundamental_div_mod(v as int, 4);
    lemma_mod_division_less_than_divisor(v as int, 4);
    lemma_fundamental_div_mod(v as int / 4, 16);
    lemma_mod_division_less_than_divisor(v as int / 4, 16);
    lemma_div_denominator(v as int, 4, 16);
    lemma_fundamental_div_mod(v as int, 64);
    lemma_mod_division_less_than_divisor(v as int, 64);
}

/// A byte splits into the two nibbles a pair packs.
pub proof fn lemma_byte_split_pair(v: u8)
    ensures
        0 <= v / 16 < 16,
        0 <= v % 16 < 16,
        v == 16 * (v / 16) + v % 16,
{
    lemma_fundamental_div_mod(v as int, 16);
    lemma_mod_division_less_than_divisor(v as int, 16);
}

/// A data triple reverses to the byte it encodes, at the checksum it was
/// made with.
pub proof fn lemma_triple_roundtrip(v: u8, cs: int)
    requires
        0 <= cs < 36,
    ensures
        spec_vowel_index(enc_triple(v, cs)[0]) == Some((((v / 64) + cs) % 6) as u8),
        spec_consonant_index(enc_triple(v, cs)[1]) == Some(((v / 4) % 16) as u8),
        spec_vowel_index(enc_triple(v, cs)[2]) == Some(((v % 4 + cs / 6) % 6) as u8),
        dec_triple(
            (((v / 64) + cs) % 6) as u8,
            ((v / 4) % 16) as u8,
            ((v % 4 + cs / 6) % 6) as u8,
            cs,
        ) == Ok::<u8, DecodeError>(v),
{
    lemma_byte_split_triple(v);
    lemma_checksum_parts(cs);
    let a = ((v / 64) + cs) % 6;
    let c = (v % 4 + cs / 6) % 6;
    lemma_mod_division_less_than_divisor(v / 64 + cs, 6);
    lemma_mod_division_less_than_divisor(v % 4 + cs / 6, 6);
    lemma_vowel_index_inverse(a);
    lemma_consonant_index_inverse(((v / 4) % 16) as int);
    lemma_vowel_index_inverse(c);
    // the high field: strip the offset cs % 6
    lemma_add_mod_noop_right((v / 64) as int, cs, 6);
    assert(a == (v / 64 + cs % 6) % 6);
    lemma_mod_offset_cancel((v / 64) as int, cs % 6);
    assert((a + 6 - cs % 6) % 6 == v / 64);
    // the low field: strip the offset cs / 6
    lemma_small_mod((cs / 6) as nat, 6);
    lemma_mod_offset_cancel((v % 4) as int, cs / 6);
    assert((c + 6 - (cs / 6) % 6) % 6 == v % 4);
}

/// A full six-character group carries its separator at the fifth position
/// and reverses to the two bytes it encodes.
pub proof fn lemma_window_roundtrip(b1: u8, b2: u8, cs: int)
    requires
        0 <= cs < 36,
    ensures
        enc_group(b1, b2, cs).len() == 6,
        enc_group(b1, b2, cs)[4] == SEPARATOR,
        dec_window(
            enc_group(b1, b2, cs)[0],
            enc_group(b1, b2, cs)[1],
            enc_group(b1, b2, cs)[2],
            enc_group(b1, b2, cs)[3],
            enc_group(b1, b2, cs)[5],
            cs,
        ) == Ok::<(u8, u8), DecodeError>((b1, b2)),
{
    reveal(crate::model::dec_window);
    lemma_triple_roundtrip(b1, cs);
    lemma_byte_split_pair(b2);
    lemma_consonant_index_inverse((b2 / 16) as int);
    lemma_consonant_index_inverse((b2 % 16) as int);
    assert(dec_pair((b2 / 16) as u8, (b2 % 16) as u8) == b2);
}

/// The interior of an encoding stays within the 24-byte alphabet.
pub proof fn lemma_enc_groups_alphabet(data: Seq<u8>, cs: int)
    ensures
        forall|p: int|
            0 <= p < enc_groups(data, cs).len() ==> spec_is_alphabet(#[trigger] enc_groups(data, cs)[p]),
    decreases data.len(),
{
    if data.len() >= 2 {
        let cs2 = next_checksum(cs, data[0], data[1]);
        lemma_enc_groups_alphabet(data.skip(2), cs2);
        assert forall|p: int| 0 <= p < enc_groups(data, cs).len() implies spec_is_alphabet(
            #[trigger] enc_groups(data, cs)[p],
        ) by {
            if p >= 6 {
                assert(enc_groups(data, cs)[p] == enc_groups(data.skip(2), cs2)[p - 6]);
            }
        }
    }
}

/// Every byte of an encoding, header and trailer included, is ASCII.
pub proof fn lemma_encode_spec_ascii(data: Seq<u8>)
    ensures
        forall|p: int| 0 <= p < encode_spec(data).len() ==> #[trigger] encode_spec(data)[p] < 128,
{
    lemma_enc_groups_alphabet(data, 1);
    assert forall|p: int| 0 <= p < encode_spec(data).len() implies #[trigger] encode_spec(
        data,
    )[p] < 128 by {
        if 1 <= p < encode_spec(data).len() - 1 {
            assert(encode_spec(data)[p] == enc_groups(data, 1)[p - 1]);
            lemma_alphabet_ascii(enc_groups(data, 1)[p - 1]);
        }
    }
}

/// The interior of an encoding holds six characters per full 2-byte group
/// and three for the final tuple.
pub proof fn lemma_enc_groups_len(data: Seq<u8>, cs: int)
    ensures
        enc_groups(data, cs).len() == 6 * (data.len() / 2) + 3,
    decreases data.len(),
{
    if data.len() >= 2 {
        lemma_enc_groups_len(data.skip(2), next_checksum(cs, data[0], data[1]));
        lemma_hoist_over_denominator(data.len() - 2, 1, 2);
        assert((data.len() - 2) / 2 + 1 == data.len() as int / 2);
    } else {
        lemma_small_mod(data.len(), 2);
        if data.len() == 0 {
            assert(data.len() as int / 2 == 0) by {
                lemma_fundamental_div_mod(0, 2);
                lemma_small_mod(0, 2);
            }
        } else {
            assert(data.len() as int / 2 == 0) by {
                lemma_fundamental_div_mod(1, 2);
                lemma_small_mod(1nat, 2nat);
            }
        }
    }
}

/// Decoding the interior an encoder produced, starting from the checksum it
/// started from, gives back exactly the bytes that were encoded.
#[verifier::rlimit(50)]
pub proof fn lemma_tail_roundtrip(data: Seq<u8>, cs: int)
    requires
        0 <= cs < 36,
    ensures
        dec_tail(enc_groups(data, cs), cs) == Ok::<Seq<u8>, DecodeError>(data),
    decreases data.len(),
{
    reveal(crate::model::dec_tail);
    reveal(crate::model::dec_final);
    reveal(crate::model::dec_window);
    let enc = enc_groups(data, cs);
    lemma_checksum_parts(cs);
    if data.len() == 0 {
        lemma_vowel_index_inverse(cs % 6);
        lemma_vowel_index_inverse(cs / 6);
        assert(enc == enc_parity(cs));
        assert(dec_final(enc, cs) == Ok::<Seq<u8>, DecodeError>(Seq::<u8>::empty()));
        assert(data =~= Seq::<u8>::empty());
    } else if data.len() == 1 {
        let v = data[0];
        lemma_triple_roundtrip(v, cs);
        assert(enc == enc_triple(v, cs));
        assert(enc[1] != SENTINEL);
        assert(dec_final(enc, cs) == Ok::<Seq<u8>, DecodeError>(seq![v]));
        assert(data =~= seq![v]);
    } else {
        let b1 = data[0];
        let b2 = data[1];
        let cs2 = next_checksum(cs, b1, b2);
        let g = enc_group(b1, b2, cs);
        let rest = enc_groups(data.skip(2), cs2);
        lemma_window_roundtrip(b1, b2, cs);
        lemma_enc_groups_len(data.skip(2), cs2);
        assert(enc == g + rest);
        assert(enc.len() >= 9);
        assert(enc[4] == g[4] && enc[4] == SEPARATOR);
        assert(enc[0] == g[0] && enc[1] == g[1] && enc[2] == g[2] && enc[3] == g[3] && enc[5]
            == g[5]);
        lemma_next_checksum_range(cs, b1, b2);
        lemma_tail_roundtrip(data.skip(2), cs2);
        assert(enc.skip(6) =~= rest);
        assert(dec_tail(enc, cs) == Ok::<Seq<u8>, DecodeError>(seq![b1, b2] + data.skip(2)));
        assert(seq![b1, b2] + data.skip(2) =~= data);
    }
}

/// Prefixing decoded bytes twice is prefixing their concatenation once.
pub proof fn lemma_prepend_assoc(a: Seq<u8>, b: Seq<u8>, r: Result<Seq<u8>, DecodeError>)
    ensures
        prepend(a, prepend(b, r)) == prepend(a + b, r),
{
    match r {
        Ok(rest) => {
            assert(a + (b + rest) =~= (a + b) + rest);
        },
        Err(_) => {},
    }
}

/// One step of the decoder's window walk: at a window boundary `j` whose
/// separator is in place and whose window decodes to two bytes, decoding the
/// rest of the interior prefixes those two bytes onto what follows.
pub proof fn lemma_tail_step(enc: Seq<u8>, j: int, cs: int, b1: u8, b2: u8)
    requires
        0 <= j,
        j + 6 <= enc.len(),
        enc[j + 4] == SEPARATOR,
        dec_window(enc[j], enc[j + 1], enc[j + 2], enc[j + 3], enc[j + 5], cs) == Ok::<
            (u8, u8),
            DecodeError,
        >((b1, b2)),
    ensures
        dec_tail(enc.skip(j), cs) == prepend(
            seq![b1, b2],
            dec_tail(enc.skip(j + 6), next_checksum(cs, b1, b2)),
        ),
{
    reveal(crate::model::dec_tail);
    let suf = enc.skip(j);
    assert(suf[0] == enc[j] && suf[1] == enc[j + 1] && suf[2] == enc[j + 2] && suf[3] == enc[j + 3]
        && suf[4] == enc[j + 4] && suf[5] == enc[j + 5]);
    assert(suf.skip(6) =~= enc.skip(j + 6));
}

/// One failing step of the decoder's window walk: an error in the window at
/// boundary `j` is the result of decoding the rest of the interior.
pub proof fn lemma_tail_step_err(enc: Seq<u8>, j: int, cs: int, e: DecodeError)
    requires
        0 <= j,
        j + 6 <= enc.len(),
        enc[j + 4] == SEPARATOR,
        dec_window(enc[j], enc[j + 1], enc[j + 2], enc[j + 3], enc[j + 5], cs) == Err::<
            (u8, u8),
            DecodeError,
        >(e),
    ensures
        dec_tail(enc.skip(j), cs) == Err::<Seq<u8>, DecodeError>(e),
{
    reveal(crate::model::dec_tail);
    let suf = enc.skip(j);
    assert(suf[0] == enc[j] && suf[1] == enc[j + 1] && suf[2] == enc[j + 2] && suf[3] == enc[j + 3]
        && suf[4] == enc[j + 4] && suf[5] == enc[j + 5]);
}

/// A full window whose separator slot holds another byte stops the walk:
/// the text no longer lines up with the rolling checksum.
pub proof fn lemma_tail_desync(enc: Seq<u8>, j: int, cs: int)
    requires
        0 <= j,
        j + 6 <= enc.len(),
        enc[j + 4] != SEPARATOR,
    ensures
        dec_tail(enc.skip(j), cs) == Err::<Seq<u8>, DecodeError>(DecodeError::ChecksumMismatch),
{
    reveal(crate::model::dec_tail);
    assert(enc.skip(j)[4] == enc[j + 4]);
}

/// When fewer than six characters remain past boundary `j`, the walk
/// decodes them as the final tuple.
pub proof fn lemma_tail_to_final(enc: Seq<u8>, j: int, cs: int)
    requires
        0 <= j <= enc.len(),
        enc.len() - j < 6,
    ensures
        dec_tail(enc.skip(j), cs) == dec_final(enc.skip(j), cs),
{
    reveal(crate::model::dec_tail);
}

/// A sequence all of whose bytes are in the alphabet has no first invalid
/// byte.
pub proof fn lemma_first_invalid_none(enc: Seq<u8>)
    requires
        forall|k: int| 0 <= k < enc.len() ==> spec_is_alphabet(#[trigger] enc[k]),
    ensures
        first_invalid(enc) is None,
    decreases enc.len(),
{
    if enc.len() > 0 {
        lemma_first_invalid_none(enc.skip(1));
    }
}

/// The first out-of-alphabet byte is found at its position: everything
/// before `t` is in the alphabet and the byte at `t` is not.
pub proof fn lemma_first_invalid_at(enc: Seq<u8>, t: int)
    requires
        0 <= t < enc.len(),
        !spec_is_alphabet(enc[t]),
        forall|k: int| 0 <= k < t ==> spec_is_alphabet(#[trigger] enc[k]),
    ensures
        first_invalid(enc) == Some(t),
    decreases t,
{
    if t > 0 {
        lemma_first_invalid_at(enc.skip(1), t - 1);
    }
}

/// Every decimal digit byte is ASCII.
pub proof fn lemma_decimal_ascii(n: nat)
    ensures
        forall|k: int| 0 <= k < spec_decimal(n).len() ==> #[trigger] spec_decimal(n)[k] < 128,
    decreases n,
{
    lemma_mod_division_less_than_divisor(n as int, 10);
    if n >= 10 {
        lemma_decimal_ascii(n / 10);
        assert forall|k: int| 0 <= k < spec_decimal(n).len() implies #[trigger] spec_decimal(
            n,
        )[k] < 128 by {
            if k < spec_decimal(n / 10).len() {
                assert(spec_decimal(n)[k] == spec_decimal(n / 10)[k]);
            }
        }
    }
}

/// INVALID BYTE POSITION.  With header and trailer in place, the first
/// interior byte outside the alphabet decides the result: decoding fails
/// with `InvalidByte` carrying that byte's position in the input, the header
/// holding position 0.
pub proof fn lemma_invalid_byte_reported(s: Seq<u8>, i: int)
    requires
        s.len() >= 2,
        s[0] == SENTINEL,
        s[s.len() - 1] == SENTINEL,
        1 <= i < s.len() - 1,
        !spec_is_alphabet(s[i]),
        forall|k: int| 1 <= k < i ==> spec_is_alphabet(#[trigger] s[k]),
    ensures
        decode_spec(s) == Err::<Seq<u8>, DecodeError>(DecodeError::InvalidByte(i as usize)),
{
    let enc = s.subrange(1, s.len() - 1);
    assert(s != xexax()) by {
        if s == xexax() {
            assert(s[i] == xexax()[i]);
            assert(spec_is_alphabet(s[i]));
        }
    }
    assert(enc[i - 1] == s[i]);
    assert forall|k: int| 0 <= k < i - 1 implies spec_is_alphabet(#[trigger] enc[k]) by {
        assert(enc[k] == s[k + 1]);
    }
    lemma_first_invalid_at(enc, i - 1);
}


/// The UTF-8 bytes of an encoded text are exactly the encoding's bytes.  An
/// encoding is ASCII throughout, so taking `as_bytes` of what [`crate::encode`]
/// returned gives the byte sequence of [`encode_spec`], and the round trip
/// closes end to end: decoding those bytes returns the data.
pub proof fn lemma_encoded_text_utf8(data: Seq<u8>)
    ensures
        encode_utf8(encoded_text(data)) == encode_spec(data),
{
    let chars = encoded_text(data);
    lemma_encode_spec_ascii(data);
    assert(is_ascii_chars(chars)) by {
        assert forall|i: int| 0 <= i < chars.len() implies '\0' <= #[trigger] chars[i]
            <= '\u{7f}' by {
            assert(chars[i] == encode_spec(data)[i] as char);
            assert(encode_spec(data)[i] < 128);
        }
    }
    is_ascii_chars_encode_utf8(chars);
    assert(encode_utf8(chars) =~= encode_spec(data));
}

/// ROUND TRIP.  Decoding the encoding of any byte sequence succeeds and
/// returns that byte sequence.
pub proof fn lemma_round_trip(data: Seq<u8>)
    ensures
        decode_spec(encode_spec(data)) == Ok::<Seq<u8>, DecodeError>(data),
{
    let s = encode_spec(data);
    let interior = enc_groups(data, 1);
    lemma_enc_groups_len(data, 1);
    if data.len() == 0 {
        assert(s =~= xexax());
        assert(data =~= Seq::<u8>::empty());
    } else {
        // the encoding of anything non-empty differs from the canonical empty
        // form: a one-byte encoding has a data consonant, never the sentinel,
        // in the middle, and anything longer has another length
        if data.len() == 1 {
            assert(s[2] == interior[1]);
            assert(interior == enc_triple(data[0], 1));
            assert(s[2] != SENTINEL && xexax()[2] == SENTINEL);
            assert(s != xexax());
        } else {
            lemma_enc_groups_len(data.skip(2), next_checksum(1, data[0], data[1]));
            assert(interior.len() >= 9);
            assert(s.len() != 5 && xexax().len() == 5);
            assert(s != xexax());
        }
        assert(s[0] == SENTINEL);
        assert(s[s.len() - 1] == SENTINEL);
        assert(s.len() >= 2);
        let enc = s.subrange(1, s.len() - 1);
        assert(enc =~= interior);
        lemma_enc_groups_alphabet(data, 1);
        lemma_first_invalid_none(enc);
        lemma_tail_roundtrip(data, 1);
    }
}


/// Within the interior, a separator byte stands only at the fifth position
/// of a full window: at an offset `6j + 4` with `j` among the full 2-byte
/// groups.
pub proof fn lemma_separator_position(data: Seq<u8>, cs: int, p: int)
    requires
        0 <= p < enc_groups(data, cs).len(),
        enc_groups(data, cs)[p] == SEPARATOR,
    ensures
        p % 6 == 4,
        p < 6 * (data.len() / 2),
    decreases data.len(),
{
    let enc = enc_groups(data, cs);
    if data.len() >= 2 {
        let cs2 = next_checksum(cs, data[0], data[1]);
        lemma_hoist_over_denominator(data.len() - 2, 1, 2);
        assert((data.len() - 2) / 2 + 1 == data.len() as int / 2);
        lemma_div_pos_is_pos(data.len() - 2, 2);
        if p < 6 {
            let g = enc_group(data[0], data[1], cs);
            assert(enc[p] == g[p]);
            assert(g[0] != SEPARATOR && g[1] != SEPARATOR && g[2] != SEPARATOR && g[3]
                != SEPARATOR && g[5] != SEPARATOR);
            assert(p == 4);
            lemma_small_mod(4nat, 6nat);
        } else {
            assert(enc[p] == enc_groups(data.skip(2), cs2)[p - 6]);
            lemma_separator_position(data.skip(2), cs2, p - 6);
            lemma_mod_sub_multiples_vanish(p, 6);
        }
    } else {
        assert(enc.len() == 3);
        assert(enc[0] != SEPARATOR && enc[1] != SEPARATOR && enc[2] != SEPARATOR);
        assert(false);
    }
}

/// Decoding an interior whose separator at window `j` was overwritten with
/// a non-separator byte: the windows before `j` decode as encoded, and the
/// walk then stops at the damaged window with `ChecksumMismatch`.
pub proof fn lemma_dec_tail_tampered(data: Seq<u8>, cs: int, j: int, b: u8)
    requires
        0 <= cs < 36,
        0 <= j < data.len() / 2,
        b != SEPARATOR,
    ensures
        dec_tail(enc_groups(data, cs).update(6 * j + 4, b), cs) == Err::<Seq<u8>, DecodeError>(
            DecodeError::ChecksumMismatch,
        ),
    decreases j,
{
    reveal(crate::model::dec_tail);
    let enc = enc_groups(data, cs);
    let tampered = enc.update(6 * j + 4, b);
    lemma_enc_groups_len(data, cs);
    lemma_fundamental_div_mod(data.len() as int, 2);
    lemma_mod_division_less_than_divisor(data.len() as int, 2);
    assert(data.len() >= 2);
    let cs2 = next_checksum(cs, data[0], data[1]);
    lemma_next_checksum_range(cs, data[0], data[1]);
    lemma_hoist_over_denominator(data.len() - 2, 1, 2);
    assert((data.len() - 2) / 2 + 1 == data.len() as int / 2);
    if j == 0 {
        assert(tampered.len() >= 6);
        assert(tampered[4] == b);
    } else {
        let g = enc_group(data[0], data[1], cs);
        let rest = enc_groups(data.skip(2), cs2);
        let t2 = rest.update(6 * (j - 1) + 4, b);
        assert(enc == g + rest);
        assert(tampered =~= g + t2);
        lemma_window_roundtrip(data[0], data[1], cs);
        assert(tampered[0] == g[0] && tampered[1] == g[1] && tampered[2] == g[2] && tampered[3]
            == g[3] && tampered[4] == g[4] && tampered[5] == g[5]);
        lemma_enc_groups_len(data.skip(2), cs2);
        assert(tampered.len() >= 6);
        assert(tampered.skip(6) =~= t2);
        lemma_dec_tail_tampered(data.skip(2), cs2, j - 1, b);
    }
}

/// CHECKSUM TAMPER DETECTION.  Overwriting any separator of an encoding
/// with another byte of the encoding alphabet is always caught: decoding
/// the tampered text fails with `ChecksumMismatch` — never a
/// silently-different valid decode.
pub proof fn lemma_separator_tamper(data: Seq<u8>, k: int, b: u8)
    requires
        0 <= k < encode_spec(data).len(),
        encode_spec(data)[k] == SEPARATOR,
        spec_is_alphabet(b),
        b != SEPARATOR,
    ensures
        decode_spec(encode_spec(data).update(k, b)) == Err::<Seq<u8>, DecodeError>(
            DecodeError::ChecksumMismatch,
        ),
{
    let s = encode_spec(data);
    let enc = enc_groups(data, 1);
    let n = s.len() as int;
    let m = (data.len() / 2) as int;
    lemma_enc_groups_len(data, 1);
    assert(s[0] == SENTINEL && s[n - 1] == SENTINEL);
    assert(1 <= k < n - 1);
    let p = k - 1;
    assert(enc[p] == s[k]);
    lemma_separator_position(data, 1, p);
    lemma_fundamental_div_mod(p, 6);
    lemma_mod_division_less_than_divisor(p, 6);
    lemma_div_pos_is_pos(p, 6);
    let j = p / 6;
    assert(p == 6 * j + 4);
    assert(0 <= j && j < m);
    let s2 = s.update(k, b);
    assert(s2.len() == n && n == 6 * m + 5);
    assert(s2 != xexax()) by {
        if s2 == xexax() {
            assert(s2.len() == 5);
        }
    }
    assert(s2[0] == SENTINEL && s2[n - 1] == SENTINEL);
    let enc2 = s2.subrange(1, n - 1);
    assert(enc2 =~= enc.update(p, b));
    lemma_enc_groups_alphabet(data, 1);
    assert forall|q: int| 0 <= q < enc2.len() implies spec_is_alphabet(#[trigger] enc2[q]) by {
        if q != p {
            assert(enc2[q] == enc[q]);
        }
    }
    lemma_first_invalid_none(enc2);
    assert(decode_spec(s2) == dec_tail(enc2, 1));
    lemma_dec_tail_tampered(data, 1, j, b);
}

} // verus!

//! A Bubble Babble encoder and decoder.
//!
//! The Bubble Babble encoding turns arbitrary bytes into hyphen-separated,
//! pronounceable five-letter pseudowords built from a fixed alphabet of six
//! vowels and sixteen consonants, wrapped in an `x` header and trailer, with a
//! rolling checksum folded into the text so that a decoder can detect
//! corrupted or truncated input.
//!
//! [`encode`] is total: every byte sequence has a canonical encoding, and the
//! empty sequence encodes as `"xexax"`.  [`decode`] validates its input in a
//! single left-to-right pass and reports the first anomaly it meets as a
//! [`DecodeError`].
//!
//! The behaviour of both functions is pinned down by the specification
//! functions in [`model`], and [`laws`] proves the headline properties, among
//! them that decoding an encoding always gives the original bytes back.

use vstd::prelude::*;
use vstd::string::StringExecFns;

pub mod decode;
pub mod encode;
pub mod laws;
pub mod model;

verus! {

/// Decoding errors from [`decode`].
///
/// `decode` returns a `DecodeError` if:
///
/// - The input contains a byte outside of the Bubble Babble encoding
///   alphabet.
/// - The input does not start with a leading 'x'.
/// - The input does not end with a trailing 'x'.
/// - The decoded result does not checksum properly.
///
/// Two kinds of alphabet error are told apart, deliberately: a byte outside
/// the 24-letter alphabet anywhere in the interior is `InvalidByte` with its
/// position, while a letter of the alphabet standing where the other letter
/// class is structurally required is `ExpectedVowel` or `ExpectedConsonant`.
#[derive(Debug, Clone, Copy, Hash, PartialEq, Eq, PartialOrd, Ord)]
pub enum DecodeError {
    /// Checksum mismatch when decoding input.
    ChecksumMismatch,
    /// Corrupted input caused a decoding failure.
    Corrupted,
    /// Expected to process a consonant from the encoding alphabet, but got
    /// something else.
    ExpectedConsonant,
    /// Expected to process a vowel from the encoding alphabet, but got
    /// something else.
    ExpectedVowel,
    /// Input contained a byte not in the encoding alphabet at this position.
    InvalidByte(usize),
    /// Input was missing a leading `x` header.
    MalformedHeader,
    /// Input was missing a final `x` trailer.
    MalformedTrailer,
}

/// The decimal digits of `n`, most significant first, appended to `out`.
fn push_decimal(n: usize, out: &mut Vec<u8>)
    ensures
        final(out)@ == old(out)@ + model::spec_decimal(n as nat),
    decreases n,
{
    proof {
        vstd::arithmetic::div_mod::lemma_mod_division_less_than_divisor(n as int, 10);
        if n < 10 {
            vstd::arithmetic::div_mod::lemma_small_mod(n as nat, 10);
        }
    }
    if n >= 10 {
        push_decimal(n / 10, out);
    }
    out.push(48 + (n % 10) as u8);
    proof {
        assert(final(out)@ =~= old(out)@ + model::spec_decimal(n as nat));
    }
}

impl DecodeError {
    /// The error's human-readable message; for `InvalidByte` it carries the
    /// position of the offending byte.  Never empty.
    pub fn message(&self) -> (r: String)
        ensures
            r@ == model::spec_message(*self),
            r@.len() > 0,
    {
        match self {
            DecodeError::ChecksumMismatch => {
                proof {
                    reveal_strlit("Checksum mismatch");
                }
                String::from_str("Checksum mismatch")
            },
            DecodeError::Corrupted => {
                proof {
                    reveal_strlit("Corrupted input");
                }
                String::from_str("Corrupted input")
            },
            DecodeError::ExpectedConsonant => {
                proof {
                    reveal_strlit("Expected consonant, got something else");
                }
                String::from_str("Expected consonant, got something else")
            },
            DecodeError::ExpectedVowel => {
                proof {
                    reveal_strlit("Expected vowel, got something else");
                }
                String::from_str("Expected vowel, got something else")
            },
            DecodeError::InvalidByte(pos) => {
                proof {
                    reveal_strlit("Encountered byte outside of encoding alphabet at position ");
                }
                let mut m = String::from_str(
                    "Encountered byte outside of encoding alphabet at position ",
                );
                let mut digits: Vec<u8> = Vec::new();
                push_decimal(*pos, &mut digits);
                proof {
                    laws::lemma_decimal_ascii(*pos as nat);
                }
                let ds = encode::ascii_to_string(digits);
                m.append(ds.as_str());
                m
            },
            DecodeError::MalformedHeader => {
                proof {
                    reveal_strlit("Missing required 'x' header");
                }
                String::from_str("Missing required 'x' header")
            },
            DecodeError::MalformedTrailer => {
                proof {
                    reveal_strlit("Missing required 'x' trailer");
                }
                String::from_str("Missing required 'x' trailer")
            },
        }
    }
}

/// Encode a byte slice with the Bubble Babble encoding to a [`String`].
///
/// Total: every input has an encoding, and the empty input encodes as the
/// canonical `"xexax"`.  The result is exactly the text that
/// [`model::encode_spec`] gives for the input: ASCII characters whose code
/// points are exactly that byte sequence.
pub fn encode(data: &[u8]) -> (r: String)
    ensures
        r@ == model::encoded_text(data@),
        r@.map_values(|c: char| c as u8) == model::encode_spec(data@),
{
    encode::inner(data)
}

/// Decode a Bubble Babble-encoded byte slice to a [`Vec<u8>`](Vec).
///
/// Decoding validates the input in one left-to-right pass and returns the
/// earliest anomaly as a [`DecodeError`]; the result, bytes or error, is
/// exactly what [`model::decode_spec`] gives for the input, so two calls on
/// the same input always agree.  A full six-character window whose separator
/// slot holds another byte fails with [`DecodeError::ChecksumMismatch`]
/// right there — the scan never skips ahead, so tampering with a separator
/// can never reach a shorter but well-checksummed decode.
pub fn decode(encoded: &[u8]) -> (r: Result<Vec<u8>, DecodeError>)
    ensures
        (match r {
            Ok(v) => model::decode_spec(encoded@) == Ok::<Seq<u8>, DecodeError>(v@),
            Err(e) => model::decode_spec(encoded@) == Err::<Seq<u8>, DecodeError>(e),
        }),
{
    decode::inner(encoded)
}

} // verus!

//! Lowercase hex encoding and decoding of byte strings, as the relay wire
//! format uses it.
//!
//! The encoding itself is performed by the `hex` crate behind trusted
//! wrappers; its meaning is pinned here by spec functions, and the round-trip
//! law is proved about those.

use vstd::prelude::*;

verus! {

use vstd::string::StringSliceAdditionalSpecFns;

/// Decoding a hex string failed.
#[derive(Debug, Clone, Copy, PartialEq, Eq)]
pub enum HexError {
    /// A character outside `0-9`, `a-f`, `A-F` was found.
    InvalidHexCharacter { c: char, index: usize },
    /// A hex string must hold two digits per byte.
    OddLength,
    /// The decoded data does not have the width the field requires.
    InvalidStringLength,
    /// The `0x` prefix of hex-encoded wire data is missing.
    MissingPrefix,
}

/// The lowercase hex digit of a value below 16.
pub open spec fn hex_digit_lower(x: u8) -> u8
    recommends
        x < 16,
{
    if x < 10 {
        (48 + x) as u8
    } else {
        (87 + x) as u8
    }
}

pub open spec fn is_hex_digit(b: u8) -> bool {
    (48 <= b <= 57) || (97 <= b <= 102) || (65 <= b <= 70)
}

/// The value of one hex digit.
pub open spec fn hex_digit_val(b: u8) -> u8
    recommends
        is_hex_digit(b),
{
    if 48 <= b <= 57 {
        (b - 48) as u8
    } else if 97 <= b <= 102 {
        (b - 87) as u8
    } else {
        (b - 55) as u8
    }
}

/// The lowercase hex encoding of a byte string: two digits per byte, the
/// high nibble first.
pub open spec fn spec_hex_lower(b: Seq<u8>) -> Seq<u8>
    decreases b.len(),
{
    if b.len() == 0 {
        Seq::empty()
    } else {
        spec_hex_lower(b.drop_last()) + seq![
            hex_digit_lower(b.last() / 16),
            hex_digit_lower(b.last() % 16),
        ]
    }
}

pub open spec fn all_hex_digits(s: Seq<u8>) -> bool {
    forall|i: int| 0 <= i < s.len() ==> is_hex_digit(#[trigger] s[i])
}

/// What the decoder accepts: an even number of hex digits, either case.
pub open spec fn valid_hex(s: Seq<u8>) -> bool {
    s.len() % 2 == 0 && all_hex_digits(s)
}

/// The bytes a hex digit string decodes to.
pub open spec fn spec_hex_decode(s: Seq<u8>) -> Seq<u8>
    decreases s.len(),
{
    if s.len() < 2 {
        Seq::empty()
    } else {
        spec_hex_decode(s.subrange(0, s.len() - 2)).push(
            (hex_digit_val(s[s.len() - 2]) * 16 + hex_digit_val(s[s.len() - 1])) as u8,
        )
    }
}

pub proof fn lemma_hex_lower_len(b: Seq<u8>)
    ensures
        spec_hex_lower(b).len() == 2 * b.len(),
    decreases b.len(),
{
    if b.len() > 0 {
        lemma_hex_lower_len(b.drop_last());
    }
}

/// Every byte of a lowercase hex encoding is a hex digit, and in particular
/// never a quote, so a quote always terminates a hex-valued wire field.
pub proof fn lemma_hex_lower_digits(b: Seq<u8>)
    ensures
        forall|i: int|
            0 <= i < spec_hex_lower(b).len() ==> is_hex_digit(#[trigger] spec_hex_lower(b)[i])
                && spec_hex_lower(b)[i] != 34,
    decreases b.len(),
{
    if b.len() > 0 {
        lemma_hex_lower_digits(b.drop_last());
        let s0 = spec_hex_lower(b.drop_last());
        let x = b.last();
        let s = spec_hex_lower(b);
        assert forall|i: int| 0 <= i < s.len() implies is_hex_digit(#[trigger] s[i]) && s[i]
            != 34 by {
            if i < s0.len() {
                assert(s[i] == s0[i]);
            } else if i == s0.len() {
                assert(s[i] == hex_digit_lower(x / 16));
                assert(x / 16 < 16);
            } else {
                assert(s[i] == hex_digit_lower(x % 16));
                assert(x % 16 < 16);
            }
        }
    }
}

/// Decoding is a left inverse of lowercase encoding.
pub proof fn lemma_hex_decode_encode(b: Seq<u8>)
    ensures
        valid_hex(spec_hex_lower(b)),
        spec_hex_decode(spec_hex_lower(b)) == b,
    decreases b.len(),
{
    lemma_hex_lower_len(b);
    lemma_hex_lower_digits(b);
    if b.len() == 0 {
        assert(spec_hex_decode(spec_hex_lower(b)) =~= b);
    } else {
        let b0 = b.drop_last();
        let x = b.last();
        lemma_hex_decode_encode(b0);
        lemma_hex_lower_len(b0);
        let s = spec_hex_lower(b);
        assert(s.subrange(0, s.len() - 2) =~= spec_hex_lower(b0));
        assert(hex_digit_val(hex_digit_lower(x / 16)) == x / 16);
        assert(hex_digit_val(hex_digit_lower(x % 16)) == x % 16);
        assert((x / 16) * 16 + x % 16 == x) by {
            assert(x == 16 * (x / 16) + x % 16);
        }
        assert(spec_hex_decode(s) =~= b0.push(x));
        assert(b0.push(x) =~= b);
    }
}

/// Relies on hex::encode: the lowercase hex digits of the input, two per
/// byte, high nibble first.
#[verifier::external_body]
pub fn hex_encode(b: &[u8]) -> (r: Vec<u8>)
    ensures
        r@ == spec_hex_lower(b@),
{
    hex::encode(b).into_bytes()
}

/// Relies on hex::decode: accepts exactly an even number of hex digits of
/// either case, an odd length is reported before any digit check.
#[verifier::external_body]
pub fn hex_decode(s: &[u8]) -> (r: Result<Vec<u8>, HexError>)
    ensures
        r is Ok <==> valid_hex(s@),
        r matches Ok(v) ==> v@ == spec_hex_decode(s@),
        r matches Err(e) ==> e != HexError::MissingPrefix && e != HexError::InvalidStringLength
            && (s@.len() % 2 != 0 ==> e == HexError::OddLength),
{
    match hex::decode(s) {
        Ok(v) => Ok(v),
        Err(hex::FromHexError::InvalidHexCharacter { c, index }) => Err(
            HexError::InvalidHexCharacter { c, index },
        ),
        Err(hex::FromHexError::OddLength) => Err(HexError::OddLength),
        Err(hex::FromHexError::InvalidStringLength) => Err(HexError::InvalidStringLength),
    }
}

/// Decodes `0x`-prefixed hex data, the way every hex-valued field of the
/// relay wire format is transmitted.
pub fn try_bytes_from_hex_str(s: &str) -> (r: Result<Vec<u8>, HexError>)
    ensures
        ({
            let bs = s.spec_bytes();
            &&& (r is Ok <==> bs.len() >= 2 && bs[0] == 48 && bs[1] == 120 && valid_hex(
                bs.skip(2),
            ))
            &&& (r matches Ok(v) ==> v@ == spec_hex_decode(bs.skip(2)))
            &&& (!(bs.len() >= 2 && bs[0] == 48 && bs[1] == 120) ==> r == Err::<
                Vec<u8>,
                HexError,
            >(HexError::MissingPrefix))
        }),
{
    let bs = s.as_bytes();
    if bs.len() < 2 || bs[0] != '0' as u8 || bs[1] != 'x' as u8 {
        return Err(HexError::MissingPrefix);
    }
    let mut rest: Vec<u8> = Vec::new();
    let mut i: usize = 2;
    while i < bs.len()
        invariant
            2 <= i <= bs@.len(),
            rest@ == bs@.subrange(2, i as int),
        decreases bs@.len() - i,
    {
        rest.push(bs[i]);
        proof {
            assert(rest@ =~= bs@.subrange(2, i + 1 as int));
        }
        i = i + 1;
    }
    proof {
        assert(rest@ =~= s.spec_bytes().skip(2));
    }
    hex_decode(rest.as_slice())
}

} // verus!

//! Hex text: validity, decoding to bytes, and encoding from bytes.
//!
//! Hex text is modeled as ASCII byte sequences. Decoding accepts digits of
//! either case; encoding always produces lowercase.

use vstd::prelude::*;

verus! {

/// An ASCII hex digit of either case.
pub open spec fn is_hex_digit(b: u8) -> bool {
    (0x30 <= b && b <= 0x39) || (0x41 <= b && b <= 0x46) || (0x61 <= b && b <= 0x66)
}

/// The value of an ASCII hex digit.
pub open spec fn hex_digit_value(b: u8) -> u8
    recommends
        is_hex_digit(b),
{
    if 0x30 <= b && b <= 0x39 {
        (b - 0x30) as u8
    } else if 0x41 <= b && b <= 0x46 {
        (b - 0x41 + 10) as u8
    } else {
        (b - 0x61 + 10) as u8
    }
}

/// Hex text: an even number of hex digits.
pub open spec fn valid_hex(s: Seq<u8>) -> bool {
    s.len() % 2 == 0 && forall|i: int| 0 <= i < s.len() ==> is_hex_digit(#[trigger] s[i])
}

/// The bytes hex text stands for: one byte per digit pair, high nibble first.
pub open spec fn spec_hex_decode(s: Seq<u8>) -> Seq<u8>
    decreases s.len(),
{
    if s.len() < 2 {
        Seq::empty()
    } else {
        seq![(hex_digit_value(s[0]) * 16 + hex_digit_value(s[1])) as u8] + spec_hex_decode(
            s.skip(2),
        )
    }
}

/// The lowercase hex digit for a value below 16.
pub open spec fn hex_char_of(v: u8) -> u8
    recommends
        v < 16,
{
    if v < 10 {
        (0x30 + v) as u8
    } else {
        (0x61 + v - 10) as u8
    }
}

/// The lowercase hex text for a byte sequence: two digits per byte, high
/// nibble first.
pub open spec fn spec_hex_encode(b: Seq<u8>) -> Seq<u8>
    decreases b.len(),
{
    if b.len() == 0 {
        Seq::empty()
    } else {
        seq![hex_char_of(b[0] / 16), hex_char_of(b[0] % 16)] + spec_hex_encode(b.drop_first())
    }
}

/// ASCII lowercasing: uppercase letters shifted down, all else unchanged.
pub open spec fn spec_to_lower(s: Seq<u8>) -> Seq<u8> {
    s.map_values(
        |b: u8|
            if 0x41 <= b && b <= 0x5a {
                (b + 0x20) as u8
            } else {
                b
            },
    )
}

/// A lowercase ASCII hex digit.
pub open spec fn is_lower_hex_digit(b: u8) -> bool {
    (0x30 <= b && b <= 0x39) || (0x61 <= b && b <= 0x66)
}

/// Canonical hex text: an even number of lowercase hex digits.
pub open spec fn lower_hex(s: Seq<u8>) -> bool {
    s.len() % 2 == 0 && forall|i: int| 0 <= i < s.len() ==> is_lower_hex_digit(#[trigger] s[i])
}

/// Encoding always yields canonical lowercase hex.
pub proof fn lemma_encode_lower_hex(b: Seq<u8>)
    ensures
        lower_hex(spec_hex_encode(b)),
    decreases b.len(),
{
    if b.len() > 0 {
        lemma_encode_lower_hex(b.drop_first());
        let e = spec_hex_encode(b);
        assert forall|i: int| 0 <= i < e.len() implies is_lower_hex_digit(#[trigger] e[i]) by {
            if i >= 2 {
                assert(e[i] == spec_hex_encode(b.drop_first())[i - 2]);
            }
        }
    }
}

/// Lowercasing valid hex text yields canonical lowercase hex.
pub proof fn lemma_to_lower_hex(s: Seq<u8>)
    requires
        valid_hex(s),
    ensures
        lower_hex(spec_to_lower(s)),
{
    assert forall|i: int| 0 <= i < spec_to_lower(s).len() implies is_lower_hex_digit(
        #[trigger] spec_to_lower(s)[i],
    ) by {
        assert(is_hex_digit(s[i]));
    }
}

/// Relies on hex::decode: it succeeds exactly on an even number of hex
/// digits of either case, and returns one byte per digit pair, high nibble
/// first. The error detail is dropped.
#[verifier::external_body]
pub fn hex_decode(s: &[u8]) -> (r: Option<Vec<u8>>)
    ensures
        match r {
            Some(v) => valid_hex(s@) && v@ == spec_hex_decode(s@),
            None => !valid_hex(s@),
        },
{
    match hex::decode(s) {
        Ok(v) => Some(v),
        Err(_) => None,
    }
}

/// Relies on hex::encode: two lowercase hex digits per input byte, high
/// nibble first.
#[verifier::external_body]
pub fn hex_encode(b: &[u8]) -> (r: Vec<u8>)
    ensures
        r@ == spec_hex_encode(b@),
{
    hex::encode(b).into_bytes()
}

/// Lowercases ASCII text.
pub fn to_lower(s: &[u8]) -> (r: Vec<u8>)
    ensures
        r@ == spec_to_lower(s@),
{
    let mut r: Vec<u8> = Vec::new();
    let mut i: usize = 0;
    while i < s.len()
        invariant
            i <= s@.len(),
            r@ == spec_to_lower(s@.take(i as int)),
        decreases s@.len() - i,
    {
        let b = s[i];
        if 0x41 <= b && b <= 0x5a {
            r.push(b + 0x20);
        } else {
            r.push(b);
        }
        i = i + 1;
        proof {
            assert(r@ =~= spec_to_lower(s@.take(i as int)));
        }
    }
    proof {
        assert(s@.take(s@.len() as int) =~= s@);
    }
    r
}

/// Lowercasing hex text does not change its validity or the bytes it
/// stands for.
pub proof fn lemma_hex_decode_lower(s: Seq<u8>)
    ensures
        valid_hex(spec_to_lower(s)) == valid_hex(s),
        valid_hex(s) ==> spec_hex_decode(spec_to_lower(s)) == spec_hex_decode(s),
    decreases s.len(),
{
    assert forall|i: int| 0 <= i < s.len() implies is_hex_digit(spec_to_lower(s)[i])
        == is_hex_digit(#[trigger] s[i]) by {}
    if s.len() < 2 {
    } else {
        assert(valid_hex(s) ==> valid_hex(s.skip(2))) by {
            if valid_hex(s) {
                assert forall|i: int| 0 <= i < s.skip(2).len() implies is_hex_digit(
                    #[trigger] s.skip(2)[i],
                ) by {
                    assert(s.skip(2)[i] == s[i + 2]);
                }
            }
        }
        lemma_hex_decode_lower(s.skip(2));
        assert(spec_to_lower(s).skip(2) =~= spec_to_lower(s.skip(2)));
        if valid_hex(s) {
            assert(hex_digit_value(spec_to_lower(s)[0]) == hex_digit_value(s[0]));
            assert(hex_digit_value(spec_to_lower(s)[1]) == hex_digit_value(s[1]));
            assert(spec_hex_decode(spec_to_lower(s)) =~= spec_hex_decode(s));
        }
    }
}

/// Encoding the bytes that valid hex text stands for yields that text,
/// lowercased: the stored canonical hex of a script parsed from hex text.
pub proof fn lemma_hex_canonical(s: Seq<u8>)
    requires
        valid_hex(s),
    ensures
        spec_hex_encode(spec_hex_decode(s)) == spec_to_lower(s),
    decreases s.len(),
{
    if s.len() < 2 {
        assert(spec_hex_encode(spec_hex_decode(s)) =~= spec_to_lower(s));
    } else {
        assert(valid_hex(s.skip(2))) by {
            assert forall|i: int| 0 <= i < s.skip(2).len() implies is_hex_digit(
                #[trigger] s.skip(2)[i],
            ) by {
                assert(s.skip(2)[i] == s[i + 2]);
            }
        }
        lemma_hex_canonical(s.skip(2));
        let d = (hex_digit_value(s[0]) * 16 + hex_digit_value(s[1])) as u8;
        assert(d / 16 == hex_digit_value(s[0]) && d % 16 == hex_digit_value(s[1])) by {
            assert(hex_digit_value(s[0]) < 16 && hex_digit_value(s[1]) < 16);
        }
        assert(hex_char_of(hex_digit_value(s[0])) == spec_to_lower(s)[0]);
        assert(hex_char_of(hex_digit_value(s[1])) == spec_to_lower(s)[1]);
        assert(spec_hex_decode(s).drop_first() =~= spec_hex_decode(s.skip(2)));
        assert(spec_hex_encode(spec_hex_decode(s)) =~= spec_to_lower(s));
    }
}

} // verus!

//! The plain types of a chain specification and the hexadecimal convention
//! its JSON encoding uses.
//!
//! The JSON itself is read by ordinary serialization code outside the
//! library; the values land here: hex strings are `0x`-prefixed, and a hash
//! must decode to exactly thirty-two bytes.

use vstd::prelude::*;

verus! {

/// The type of a chain, as declared in its specification.
#[derive(Debug, Clone, PartialEq, Eq)]
pub enum ChainType {
    Development,
    Local,
    Live,
    Custom(Vec<u8>),
}

impl Default for ChainType {
    /// A specification that does not declare its type is a live chain.
    fn default() -> (r: ChainType)
        ensures
            r is Live,
    {
        ChainType::Live
    }
}

/// A byte string that the specification writes as `0x`-prefixed hex.
pub struct HexString(pub Vec<u8>);

/// A thirty-two byte hash that the specification writes as `0x`-prefixed
/// hex.
pub struct HashHexString(pub Vec<u8>);

/// Value of one hexadecimal digit, case-insensitive.
pub open spec fn spec_hex_digit(c: u8) -> Option<u8> {
    if 48 <= c <= 57 {
        Option::Some((c - 48) as u8)
    } else if 97 <= c <= 102 {
        Option::Some((c - 87) as u8)
    } else if 65 <= c <= 70 {
        Option::Some((c - 55) as u8)
    } else {
        Option::None
    }
}

/// The text is a well-formed `0x`-prefixed hex string: every character
/// after the prefix is a hex digit, and there is an even number of them.
pub open spec fn spec_hex_text_ok(text: Seq<u8>) -> bool {
    &&& text.len() >= 2
    &&& text[0] == 48
    &&& text[1] == 120
    &&& (text.len() - 2) % 2 == 0
    &&& forall|i: int| 2 <= i < text.len() ==> spec_hex_digit(#[trigger] text[i]) is Some
}

/// Byte at pair `i` of a hex text: sixteen times the high digit plus the
/// low digit.
pub open spec fn spec_hex_byte(text: Seq<u8>, i: int) -> u8 {
    (spec_hex_digit(text[2 + 2 * i]).unwrap() * 16 + spec_hex_digit(
        text[2 + 2 * i + 1],
    ).unwrap()) as u8
}

/// Value of one hexadecimal digit, case-insensitive.
fn hex_digit(c: u8) -> (r: Option<u8>)
    ensures
        r == spec_hex_digit(c),
{
    if 48 <= c && c <= 57 {
        Option::Some(c - 48)
    } else if 97 <= c && c <= 102 {
        Option::Some(c - 87)
    } else if 65 <= c && c <= 70 {
        Option::Some(c - 55)
    } else {
        Option::None
    }
}

/// Decodes a `0x`-prefixed hex text into its bytes. `None` exactly when the
/// prefix is missing, a character is not a hex digit, or the digit count is
/// odd.
pub fn hex_decode(text: &Vec<u8>) -> (r: Option<Vec<u8>>)
    ensures
        (r is Some) == spec_hex_text_ok(text@),
        r matches Option::Some(bytes) ==> bytes@.len() == (text@.len() - 2) / 2 && forall|i: int|
            0 <= i < bytes@.len() ==> #[trigger] bytes@[i] == spec_hex_byte(text@, i),
{
    if text.len() < 2 || text[0] != 48 || text[1] != 120 {
        return Option::None;
    }
    if (text.len() - 2) % 2 != 0 {
        return Option::None;
    }
    let mut bytes: Vec<u8> = Vec::new();
    let mut i: usize = 2;
    while i < text.len()
        invariant
            text@.len() >= 2,
            text@[0] == 48,
            text@[1] == 120,
            (text@.len() - 2) % 2 == 0,
            2 <= i <= text@.len(),
            (i - 2) % 2 == 0,
            bytes@.len() == (i - 2) / 2,
            forall|j: int| 0 <= j < bytes@.len() ==> #[trigger] bytes@[j] == spec_hex_byte(text@, j),
            forall|j: int| 2 <= j < i ==> spec_hex_digit(#[trigger] text@[j]) is Some,
        decreases text@.len() - i,
    {
        let hi = match hex_digit(text[i]) {
            Option::Some(d) => d,
            Option::None => {
                return Option::None;
            },
        };
        let lo = match hex_digit(text[i + 1]) {
            Option::Some(d) => d,
            Option::None => {
                return Option::None;
            },
        };
        bytes.push(hi * 16 + lo);
        proof {
            assert(bytes@.last() == spec_hex_byte(text@, bytes@.len() - 1));
        }
        i = i + 2;
    }
    Option::Some(bytes)
}

/// Encodes bytes as `0x`-prefixed lowercase hex.
pub fn hex_encode(bytes: &Vec<u8>) -> (r: Vec<u8>)
    ensures
        spec_hex_text_ok(r@),
        r@.len() == 2 + 2 * bytes@.len(),
        forall|i: int| 0 <= i < bytes@.len() ==> spec_hex_byte(r@, i) == bytes@[i],
{
    let mut r: Vec<u8> = Vec::new();
    r.push(48);
    r.push(120);
    let mut i: usize = 0;
    while i < bytes.len()
        invariant
            i <= bytes@.len(),
            r@.len() == 2 + 2 * i,
            r@[0] == 48,
            r@[1] == 120,
            forall|j: int| 2 <= j < r@.len() ==> spec_hex_digit(#[trigger] r@[j]) is Some,
            forall|j: int| 0 <= j < i ==> spec_hex_byte(r@, j) == bytes@[j],
        decreases bytes@.len() - i,
    {
        let b = bytes[i];
        let hi = b / 16;
        let lo = b % 16;
        let hi_c = if hi < 10 {
            hi + 48
        } else {
            hi + 87
        };
        let lo_c = if lo < 10 {
            lo + 48
        } else {
            lo + 87
        };
        r.push(hi_c);
        r.push(lo_c);
        proof {
            assert(spec_hex_digit(hi_c) == Option::Some(hi));
            assert(spec_hex_digit(lo_c) == Option::Some(lo));
            assert(spec_hex_byte(r@, i as int) == b);
            assert(forall|j: int| 0 <= j < i ==> spec_hex_byte(r@, j) == bytes@[j]);
        }
        i = i + 1;
    }
    r
}

/// Decodes the hex text of a general byte string field.
pub fn hex_string_decode(text: &Vec<u8>) -> (r: Option<HexString>)
    ensures
        (r is Some) == spec_hex_text_ok(text@),
        r matches Option::Some(h) ==> h.0@.len() == (text@.len() - 2) / 2 && forall|i: int|
            0 <= i < h.0@.len() ==> #[trigger] h.0@[i] == spec_hex_byte(text@, i),
{
    match hex_decode(text) {
        Option::Some(bytes) => Option::Some(HexString(bytes)),
        Option::None => Option::None,
    }
}

/// Decodes the hex text of a hash field, which must hold exactly
/// thirty-two bytes.
pub fn hash_hex_decode(text: &Vec<u8>) -> (r: Option<HashHexString>)
    ensures
        (r is Some) == (spec_hex_text_ok(text@) && (text@.len() - 2) / 2
            == crate::bytes::HASH_LEN),
        r matches Option::Some(h) ==> h.0@.len() == crate::bytes::HASH_LEN && forall|i: int|
            0 <= i < h.0@.len() ==> #[trigger] h.0@[i] == spec_hex_byte(text@, i),
{
    match hex_decode(text) {
        Option::Some(bytes) => {
            if bytes.len() == crate::bytes::HASH_LEN {
                Option::Some(HashHexString(bytes))
            } else {
                Option::None
            }
        },
        Option::None => Option::None,
    }
}

} // verus!

//! Hex color parsing (`#rrggbb`) shared by the shape renderer and the styleguide.

use vstd::prelude::*;
use vstd::string::*;
use vstd::utf8::*;

verus! {

broadcast use vstd::string::group_string_axioms;

/// The value of one ASCII hex digit, or `None` for any other character.
pub open spec fn hex_digit_value(c: char) -> Option<u8> {
    if '0' <= c && c <= '9' {
        Some((c as u32 - '0' as u32) as u8)
    } else if 'a' <= c && c <= 'f' {
        Some((c as u32 - 'a' as u32 + 10) as u8)
    } else if 'A' <= c && c <= 'F' {
        Some((c as u32 - 'A' as u32 + 10) as u8)
    } else {
        None
    }
}

/// What `u8::from_str_radix(text, 16)` yields for a two-character text: two hex digits,
/// or an explicit `+` sign followed by one hex digit.
pub open spec fn radix16_pair(a: char, b: char) -> Option<u8> {
    match (hex_digit_value(a), hex_digit_value(b)) {
        (Some(hi), Some(lo)) => Some((hi * 16 + lo) as u8),
        (None, Some(lo)) => if a == '+' { Some(lo) } else { None },
        _ => None,
    }
}

/// The byte two hex digits spell, or `None` unless both are hex digits.
pub open spec fn digit_pair(a: char, b: char) -> Option<u8> {
    match (hex_digit_value(a), hex_digit_value(b)) {
        (Some(hi), Some(lo)) => Some((hi * 16 + lo) as u8),
        _ => None,
    }
}

/// The color a text of exactly six hex digits `rrggbb` denotes, or `None` for any other text.
pub open spec fn spec_strict_hex_triple(h: Seq<char>) -> Option<(u8, u8, u8)> {
    if h.len() == 6 {
        match (digit_pair(h[0], h[1]), digit_pair(h[2], h[3]), digit_pair(h[4], h[5])) {
            (Some(r), Some(g), Some(b)) => Some((r, g, b)),
            _ => None,
        }
    } else {
        None
    }
}

/// The color a six-character ASCII text `rrggbb` denotes, or `None`.
pub open spec fn spec_hex_triple(h: Seq<char>) -> Option<(u8, u8, u8)> {
    if h.len() == 6 && is_ascii_chars(h) {
        match (radix16_pair(h[0], h[1]), radix16_pair(h[2], h[3]), radix16_pair(h[4], h[5])) {
            (Some(r), Some(g), Some(b)) => Some((r, g, b)),
            _ => None,
        }
    } else {
        None
    }
}

/// Slicing the text into byte ranges `0..2`, `2..4`, `4..6` panics when it is six bytes
/// long but one of those cuts falls inside a multi-byte character.
pub open spec fn triple_slicing_panics(h: Seq<char>) -> bool {
    let bytes = encode_utf8(h);
    bytes.len() == 6 && !(is_char_boundary(bytes, 2) && is_char_boundary(bytes, 4))
}

fn digit_value(c: u8) -> (r: Option<u8>)
    ensures
        r == hex_digit_value(c as char),
{
    if 48u8 <= c && c <= 57u8 {
        Some(c - 48u8)
    } else if 97u8 <= c && c <= 102u8 {
        Some(c - 97u8 + 10)
    } else if 65u8 <= c && c <= 70u8 {
        Some(c - 65u8 + 10)
    } else {
        None
    }
}

fn pair_value(a: u8, b: u8) -> (r: Option<u8>)
    ensures
        r == radix16_pair(a as char, b as char),
{
    match (digit_value(a), digit_value(b)) {
        (Some(hi), Some(lo)) => Some(hi * 16 + lo),
        (None, Some(lo)) => if a == 43u8 { Some(lo) } else { None },
        _ => None,
    }
}

fn digits_value(a: u8, b: u8) -> (r: Option<u8>)
    ensures
        r == digit_pair(a as char, b as char),
{
    match (digit_value(a), digit_value(b)) {
        (Some(hi), Some(lo)) => Some(hi * 16 + lo),
        _ => None,
    }
}

proof fn lemma_ascii_byte_char(c: char, b: u8)
    requires
        (c as u32) < 128,
        c as u8 == b,
    ensures
        b as char == c,
{
    assert(b as u32 == c as u32);
    vstd::utf8::char_u32_cast(c, c as u32);
}

/// Parses a text of exactly six hex digits `rrggbb`; any other text gives `None`.
pub(crate) fn strict_hex_triple(h: &str) -> (r: Option<(u8, u8, u8)>)
    ensures
        r == spec_strict_hex_triple(h@),
{
    if !h.is_ascii() {
        proof {
            if h@.len() == 6 {
                let i = choose|i: int| 0 <= i < h@.len() && !('\0' <= #[trigger] h@[i] <= '\u{7f}');
                assert(hex_digit_value(h@[i]) is None);
                if i == 0 || i == 1 {
                    assert(digit_pair(h@[0], h@[1]) is None);
                } else if i == 2 || i == 3 {
                    assert(digit_pair(h@[2], h@[3]) is None);
                } else {
                    assert(digit_pair(h@[4], h@[5]) is None);
                }
            }
        }
        return None;
    }
    if h.unicode_len() != 6 {
        return None;
    }
    let c0 = h.get_ascii(0);
    let c1 = h.get_ascii(1);
    let c2 = h.get_ascii(2);
    let c3 = h.get_ascii(3);
    let c4 = h.get_ascii(4);
    let c5 = h.get_ascii(5);
    proof {
        assert forall|i: int| 0 <= i < 6 implies (h@[i] as u32) < 128 by {
            assert(is_ascii_chars(h@));
        }
        lemma_ascii_byte_char(h@[0], c0);
        lemma_ascii_byte_char(h@[1], c1);
        lemma_ascii_byte_char(h@[2], c2);
        lemma_ascii_byte_char(h@[3], c3);
        lemma_ascii_byte_char(h@[4], c4);
        lemma_ascii_byte_char(h@[5], c5);
    }
    let r = digits_value(c0, c1);
    let g = digits_value(c2, c3);
    let b = digits_value(c4, c5);
    match (r, g, b) {
        (Some(r), Some(g), Some(b)) => Some((r, g, b)),
        _ => None,
    }
}

/// Parses a text with no leading `#` as `rrggbb`.
pub(crate) fn hex_triple(h: &str) -> (r: Option<(u8, u8, u8)>)
    requires
        !triple_slicing_panics(h@),
    ensures
        r == spec_hex_triple(h@),
{
    // A six-byte text that is not ASCII never parses: every chunk then holds a byte
    // outside the digit alphabet.
    if !h.is_ascii() || h.unicode_len() != 6 {
        return None;
    }
    let c0 = h.get_ascii(0);
    let c1 = h.get_ascii(1);
    let c2 = h.get_ascii(2);
    let c3 = h.get_ascii(3);
    let c4 = h.get_ascii(4);
    let c5 = h.get_ascii(5);
    proof {
        assert forall|i: int| 0 <= i < 6 implies (h@[i] as u32) < 128 by {
            assert(is_ascii_chars(h@));
        }
        lemma_ascii_byte_char(h@[0], c0);
        lemma_ascii_byte_char(h@[1], c1);
        lemma_ascii_byte_char(h@[2], c2);
        lemma_ascii_byte_char(h@[3], c3);
        lemma_ascii_byte_char(h@[4], c4);
        lemma_ascii_byte_char(h@[5], c5);
    }
    let r = pair_value(c0, c1);
    let g = pair_value(c2, c3);
    let b = pair_value(c4, c5);
    match (r, g, b) {
        (Some(r), Some(g), Some(b)) => Some((r, g, b)),
        _ => None,
    }
}

} // verus!

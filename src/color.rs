//! Hex colour strings and their normalised RGB channels.
use vstd::prelude::*;
use vstd::string::StrSliceExecFns;

use crate::binary32::{nearest_bits, ratio_bits, HALF_BITS};

verus! {

/// Value of a hexadecimal digit, or `-1` for any other character.
pub open spec fn hex_value(c: char) -> int {
    if '0' <= c && c <= '9' {
        c as int - '0' as int
    } else if 'a' <= c && c <= 'f' {
        c as int - 'a' as int + 10
    } else if 'A' <= c && c <= 'F' {
        c as int - 'A' as int + 10
    } else {
        -1
    }
}

/// The digits of a colour string: one leading `#` is dropped.
pub open spec fn color_digits(s: Seq<char>) -> Seq<char> {
    if s.len() > 0 && s[0] == '#' {
        s.subrange(1, s.len() as int)
    } else {
        s
    }
}

/// The byte written by the two hex digits at `i` and `i + 1` of `h`.
pub open spec fn hex_pair(h: Seq<char>, i: int) -> u8 {
    (16 * hex_value(h[i]) + hex_value(h[i + 1])) as u8
}

/// The red, green and blue bytes of a colour string, when its digits are
/// exactly six hex digits.
pub open spec fn hex_channels(s: Seq<char>) -> Option<(u8, u8, u8)> {
    let h = color_digits(s);
    if h.len() == 6 && forall|i: int| 0 <= i < 6 ==> hex_value(#[trigger] h[i]) >= 0 {
        Some((hex_pair(h, 0), hex_pair(h, 2), hex_pair(h, 4)))
    } else {
        None
    }
}

/// Bits of the three channels of a colour string, each divided by 255;
/// mid-gray for a malformed string.
pub open spec fn color_bits(s: Seq<char>) -> (u32, u32, u32) {
    match hex_channels(s) {
        Some((r, g, b)) => (
            nearest_bits(r as nat, 255) as u32,
            nearest_bits(g as nat, 255) as u32,
            nearest_bits(b as nat, 255) as u32,
        ),
        None => (HALF_BITS, HALF_BITS, HALF_BITS),
    }
}

/// Value of the hex digit `c`.
pub fn hex_digit(c: char) -> (r: Option<u8>)
    ensures
        hex_value(c) >= 0 <==> r is Some,
        r is Some ==> r->Some_0 == hex_value(c),
{
    if '0' <= c && c <= '9' {
        Some((c as u32 - '0' as u32) as u8)
    } else if 'a' <= c && c <= 'f' {
        Some((c as u32 - 'a' as u32 + 10) as u8)
    } else if 'A' <= c && c <= 'F' {
        Some((c as u32 - 'A' as u32 + 10) as u8)
    } else {
        None
    }
}

/// The red, green and blue bytes of a colour string such as `"#FF8800"`
/// or `"ff8800"`.
pub fn parse_hex_color(hex: &str) -> (r: Option<(u8, u8, u8)>)
    ensures
        r == hex_channels(hex@),
{
    let len = hex.unicode_len();
    let start: usize = if len > 0 && hex.get_char(0) == '#' {
        1
    } else {
        0
    };
    let ghost h = color_digits(hex@);
    if len - start != 6 {
        return None;
    }
    let mut digits: Vec<u8> = Vec::new();
    let mut i: usize = 0;
    while i < 6
        invariant
            len == hex@.len(),
            len - start == 6,
            h == hex@.subrange(start as int, len as int),
            i <= 6,
            digits@.len() == i,
            forall|k: int| 0 <= k < i ==> hex_value(h[k]) >= 0 && digits@[k] == hex_value(#[trigger] h[k]),
        decreases 6 - i,
    {
        match hex_digit(hex.get_char(start + i)) {
            Some(v) => digits.push(v),
            None => {
                return None;
            },
        }
        i = i + 1;
    }
    Some(
        (
            16 * digits[0] + digits[1],
            16 * digits[2] + digits[3],
            16 * digits[4] + digits[5],
        ),
    )
}

/// Bits of the normalised red, green and blue channels of a colour string;
/// `(0.5, 0.5, 0.5)` when it is not a six-digit hex colour.
pub fn parse_color(hex: &str) -> (r: (u32, u32, u32))
    ensures
        r == color_bits(hex@),
{
    match parse_hex_color(hex) {
        Some((red, green, blue)) => (
            ratio_bits(red as u64, 255),
            ratio_bits(green as u64, 255),
            ratio_bits(blue as u64, 255),
        ),
        None => (HALF_BITS, HALF_BITS, HALF_BITS),
    }
}

} // verus!

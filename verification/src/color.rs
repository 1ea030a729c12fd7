//! Colours with transparency, as the screen takes them, and their notation.

use crate::text::characters;
use vstd::prelude::*;

verus! {

/// The colour with the parts `r`, `g` and `b` and the opacity `a`, each from 0
/// to 255, as one number: the opacity in the highest eight bits, and below it
/// the parts, each multiplied by the opacity.
pub open spec fn argb(r: u32, g: u32, b: u32, a: u32) -> u32 {
    (a << 24) | ((((r << 16) * a) / 255) as u32) | ((((g << 8) * a) / 255) as u32) | (((b * a)
        / 255) as u32)
}

/// The number that the hexadecimal digit `c` denotes.
pub open spec fn hex_value(c: char) -> Option<u32> {
    if '0' <= c <= '9' {
        Some((c as u32 - '0' as u32) as u32)
    } else if 'a' <= c <= 'f' {
        Some((c as u32 - 'a' as u32 + 10) as u32)
    } else if 'A' <= c <= 'F' {
        Some((c as u32 - 'A' as u32 + 10) as u32)
    } else {
        None
    }
}

/// The number that two characters denote in base sixteen: two digits, or one
/// digit behind a plus sign.
pub open spec fn hex_byte(high: char, low: char) -> Option<u32> {
    match hex_value(low) {
        Some(l) => match hex_value(high) {
            Some(h) => Some((h * 16 + l) as u32),
            None => if high == '+' {
                Some(l)
            } else {
                None
            },
        },
        None => None,
    }
}

/// The colour that `s` denotes: behind one character of seven bits, which by
/// custom is `#`, two characters each for red, green, blue and the opacity.
/// What follows them is not looked at.
pub open spec fn color_of(s: Seq<char>) -> Option<u32> {
    if s.len() >= 9 && (s[0] as u32) < 0x80 {
        match (hex_byte(s[1], s[2]), hex_byte(s[3], s[4]), hex_byte(s[5], s[6]), hex_byte(s[7], s[8])) {
            (Some(r), Some(g), Some(b), Some(a)) => Some(argb(r, g, b, a)),
            _ => None,
        }
    } else {
        None
    }
}

pub fn color_to_argb(r: u32, g: u32, b: u32, a: u32) -> (c: u32)
    requires
        r <= 255,
        g <= 255,
        b <= 255,
        a <= 255,
    ensures
        c == argb(r, g, b, a),
{
    assert((r << 16) <= 0xff_0000) by (bit_vector)
        requires
            r <= 255,
    ;
    assert((g << 8) <= 0xff00) by (bit_vector)
        requires
            g <= 255,
    ;
    assert((r << 16) * a <= 0xff_0000 * 255) by (nonlinear_arith)
        requires
            (r << 16) <= 0xff_0000,
            a <= 255,
    ;
    assert((g << 8) * a <= 0xff00 * 255) by (nonlinear_arith)
        requires
            (g << 8) <= 0xff00,
            a <= 255,
    ;
    assert(b * a <= 255 * 255) by (nonlinear_arith)
        requires
            b <= 255,
            a <= 255,
    ;
    (a << 24) | ((r << 16) * a / 255) | ((g << 8) * a / 255) | (b * a / 255)
}

/// Reads a hexadecimal digit.
fn hex_digit(c: char) -> (r: Option<u32>)
    ensures
        r == hex_value(c),
        r matches Some(v) ==> v <= 15,
{
    if '0' <= c && c <= '9' {
        Some(c as u32 - '0' as u32)
    } else if 'a' <= c && c <= 'f' {
        Some(c as u32 - 'a' as u32 + 10)
    } else if 'A' <= c && c <= 'F' {
        Some(c as u32 - 'A' as u32 + 10)
    } else {
        None
    }
}

/// Reads two characters as a number in base sixteen.
fn two_hex_digits(high: char, low: char) -> (r: Option<u32>)
    ensures
        r == hex_byte(high, low),
        r matches Some(v) ==> v <= 255,
{
    match hex_digit(low) {
        Some(l) => match hex_digit(high) {
            Some(h) => Some(h * 16 + l),
            None => if high == '+' {
                Some(l)
            } else {
                None
            },
        },
        None => None,
    }
}

/// Reads a colour from the characters of `chars` between `from` and `to`.
pub fn read_color(chars: &Vec<char>, from: usize, to: usize) -> (c: Option<u32>)
    requires
        from <= to <= chars@.len(),
    ensures
        c == color_of(chars@.subrange(from as int, to as int)),
{
    let ghost s = chars@.subrange(from as int, to as int);
    if to - from < 9 || chars[from] as u32 >= 0x80 {
        return None;
    }
    assert(forall|k: int| 0 <= k < 9 ==> s[k] == chars@[from + k]);
    let r = two_hex_digits(chars[from + 1], chars[from + 2]);
    let g = two_hex_digits(chars[from + 3], chars[from + 4]);
    let b = two_hex_digits(chars[from + 5], chars[from + 6]);
    let a = two_hex_digits(chars[from + 7], chars[from + 8]);
    match (r, g, b, a) {
        (Some(r), Some(g), Some(b), Some(a)) => Some(color_to_argb(r, g, b, a)),
        _ => None,
    }
}

/// Reads a colour in the notation `#rrggbbaa`; `None` if `hex_code` is not
/// of that form.
pub fn parse_hex(hex_code: &str) -> (c: Option<u32>)
    ensures
        c == color_of(hex_code@),
{
    let chars = characters(hex_code);
    assert(chars@.subrange(0, chars@.len() as int) =~= chars@);
    read_color(&chars, 0, chars.len())
}

} // verus!

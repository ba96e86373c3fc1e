//! Colors: hex strings to pixels, and the palette.

use vstd::prelude::*;
use crate::config::Pixel;
use crate::error::CompileError;
use crate::text::chars_of;

verus! {

/// Whether `c` is a hexadecimal digit, with small or capital letters.
pub open spec fn is_hex(c: char) -> bool {
    ('0' <= c <= '9') || ('a' <= c <= 'f') || ('A' <= c <= 'F')
}

/// The value of a hexadecimal digit.
pub open spec fn hex_value(c: char) -> int {
    if '0' <= c <= '9' {
        c as u32 - '0' as u32
    } else if 'a' <= c <= 'f' {
        c as u32 - 'a' as u32 + 10
    } else {
        c as u32 - 'A' as u32 + 10
    }
}

/// The channel that two hexadecimal digits denote.
pub open spec fn hex_pair(high: char, low: char) -> u8 {
    (16 * hex_value(high) + hex_value(low)) as u8
}

/// The pixel that a hex string denotes: a hash followed by six hexadecimal digits for red,
/// green and blue, with alpha 255, or by eight for red, green, blue and alpha. Any other
/// string denotes none.
pub open spec fn hex_color(hex: Seq<char>) -> Option<Pixel> {
    if (hex.len() == 7 || hex.len() == 9) && hex[0] == '#' && (forall|i: int|
        1 <= i < hex.len() ==> is_hex(#[trigger] hex[i])) {
        Some(
            (
                hex_pair(hex[1], hex[2]),
                hex_pair(hex[3], hex[4]),
                hex_pair(hex[5], hex[6]),
                if hex.len() == 9 {
                    hex_pair(hex[7], hex[8])
                } else {
                    255u8
                },
            ),
        )
    } else {
        None
    }
}

/// The color of a character that the palette does not hold: opaque black.
pub open spec fn fallback() -> Pixel {
    (0u8, 0u8, 0u8, 255u8)
}

/// The pixel of a character: what the first palette entry for it denotes, which is nothing
/// where that entry is malformed; opaque black where the palette has no entry for it.
pub open spec fn resolve(colors: Seq<(char, String)>, c: char) -> Option<Pixel>
    decreases colors.len(),
{
    if colors.len() == 0 {
        Some(fallback())
    } else if colors[0].0 == c {
        hex_color(colors[0].1@)
    } else {
        resolve(colors.drop_first(), c)
    }
}

/// A six-digit color is opaque, and a string that is not a hash followed by six or eight
/// hexadecimal digits is no color.
pub proof fn lemma_hex_color_forms(hex: Seq<char>)
    ensures
        hex_color(hex) matches Some(p) ==> hex[0] == '#' && (hex.len() == 7 || hex.len() == 9),
        hex_color(hex) matches Some(p) ==> forall|i: int|
            1 <= i < hex.len() ==> is_hex(#[trigger] hex[i]),
        hex_color(hex) matches Some(p) ==> hex.len() == 7 ==> p.3 == 255,
{
}

/// The value of a hexadecimal digit, or nothing for another character.
fn hex_digit(c: char) -> (value: Option<u8>)
    ensures
        value is Some == is_hex(c),
        value matches Some(v) ==> v == hex_value(c) && v < 16,
{
    if c >= '0' && c <= '9' {
        Some((c as u32 - '0' as u32) as u8)
    } else if c >= 'a' && c <= 'f' {
        Some((c as u32 - 'a' as u32 + 10) as u8)
    } else if c >= 'A' && c <= 'F' {
        Some((c as u32 - 'A' as u32 + 10) as u8)
    } else {
        None
    }
}

/// Reads the channel at positions `at` and `at + 1`.
fn channel(hex: &Vec<char>, at: usize) -> (value: Option<u8>)
    requires
        at <= 7,
        at + 1 < hex@.len(),
    ensures
        value is Some == (is_hex(hex@[at as int]) && is_hex(hex@[at + 1])),
        value matches Some(v) ==> v == hex_pair(hex@[at as int], hex@[at + 1]),
{
    match hex_digit(hex[at]) {
        Some(high) => match hex_digit(hex[at + 1]) {
            Some(low) => Some(16 * high + low),
            None => None,
        },
        None => None,
    }
}

/// Reads a hex color given as characters.
pub fn to_rgba_chars(hex: &Vec<char>) -> (out: Result<Pixel, CompileError>)
    ensures
        match out {
            Ok(p) => hex_color(hex@) == Some(p),
            Err(e) => hex_color(hex@) is None && e == CompileError::ColorFormat,
        },
{
    let n = hex.len();
    if (n != 7 && n != 9) || hex[0] != '#' {
        return Err(CompileError::ColorFormat);
    }
    let red = channel(hex, 1);
    let green = channel(hex, 3);
    let blue = channel(hex, 5);
    let alpha = if n == 9 {
        channel(hex, 7)
    } else {
        Some(255u8)
    };
    match (red, green, blue, alpha) {
        (Some(r), Some(g), Some(b), Some(a)) => {
            assert forall|i: int| 1 <= i < hex@.len() implies is_hex(#[trigger] hex@[i]) by {
                assert(i == 1 || i == 2 || i == 3 || i == 4 || i == 5 || i == 6 || i == 7 || i
                    == 8);
            }
            Ok((r, g, b, a))
        },
        _ => Err(CompileError::ColorFormat),
    }
}

/// Reads a hex color: `#RRGGBB`, which is opaque, or `#RRGGBBAA`.
pub fn to_rgba(hex: &str) -> (out: Result<Pixel, CompileError>)
    ensures
        match out {
            Ok(p) => hex_color(hex@) == Some(p),
            Err(e) => hex_color(hex@) is None && e == CompileError::ColorFormat,
        },
{
    let chars = chars_of(hex);
    to_rgba_chars(&chars)
}

/// Resolves a character to its pixel.
pub fn color_of(colors: &Vec<(char, String)>, c: char) -> (out: Result<Pixel, CompileError>)
    ensures
        match out {
            Ok(p) => resolve(colors@, c) == Some(p),
            Err(e) => resolve(colors@, c) is None && e == CompileError::ColorFormat,
        },
{
    let mut i: usize = 0;
    assert(colors@.subrange(0, colors@.len() as int) =~= colors@);
    while i < colors.len()
        invariant
            i <= colors@.len(),
            resolve(colors@, c) == resolve(colors@.subrange(i as int, colors@.len() as int), c),
        decreases colors@.len() - i,
    {
        let ghost rest = colors@.subrange(i as int, colors@.len() as int);
        assert(rest[0] == colors@[i as int]);
        assert(rest.drop_first() =~= colors@.subrange(i + 1, colors@.len() as int));
        if colors[i].0 == c {
            return to_rgba(colors[i].1.as_str());
        }
        i += 1;
    }
    Ok((0, 0, 0, 255))
}

} // verus!

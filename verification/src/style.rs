//! Colors of the style vocabulary, parsed from hex codes by `palette`: `#rgb` and
//! `#rrggbb` (opaque) or `#rrggbbaa`, with or without the `#`.

use vstd::prelude::*;
use vstd::string::*;
use vstd::utf8::*;

use crate::edit::StyleKind;
use crate::hex::{hex_digit_value, radix16_pair, spec_hex_triple, triple_slicing_panics};
use crate::text::{strip_one_char, strip_one_leading};

verus! {

broadcast use vstd::string::group_string_axioms;

/// Why a hex code is not a color.
#[derive(Clone, Copy, Debug, PartialEq, Eq, Structural)]
pub enum HexColorError {
    /// A part of the code is not a hexadecimal number.
    Digits,
    /// Not 3 or 6 hex digits (for an opaque color).
    RgbFormat,
    /// Not 4 or 8 hex digits (for a color with alpha).
    RgbaFormat,
}

/// The value of a one-digit hex number (what `u8::from_str_radix` gives for one
/// character: a lone `+` is no number).
pub open spec fn nibble(c: char) -> Option<u8> {
    hex_digit_value(c)
}

/// A short digit `d` stands for `dd`, i.e. `d * 17`.
pub open spec fn widen(d: u8) -> u8 {
    (d * 17) as u8
}

/// The opaque color `palette` reads from a hex code (its `FromStr` for `Rgb<_, u8>`): one
/// leading `#` dropped, then three single digits (each widened) or three pairs; any other
/// length in bytes is a format error.
pub open spec fn spec_rgb_hex(h: Seq<char>) -> Result<(u8, u8, u8), HexColorError> {
    let code = strip_one_leading(h, '#');
    let n = encode_utf8(code).len();
    if n == 3 {
        if code.len() == 3 && nibble(code[0]) is Some && nibble(code[1]) is Some && nibble(code[2]) is Some {
            Ok((widen(nibble(code[0])->0), widen(nibble(code[1])->0), widen(nibble(code[2])->0)))
        } else {
            Err(HexColorError::Digits)
        }
    } else if n == 6 {
        match spec_hex_triple(code) {
            Some(t) => Ok(t),
            None => Err(HexColorError::Digits),
        }
    } else {
        Err(HexColorError::RgbFormat)
    }
}

/// The eight-digit code `code` as four pairs.
pub open spec fn hex_quad(code: Seq<char>) -> Option<(u8, u8, u8, u8)> {
    if code.len() == 8 && is_ascii_chars(code) {
        match (
            radix16_pair(code[0], code[1]),
            radix16_pair(code[2], code[3]),
            radix16_pair(code[4], code[5]),
            radix16_pair(code[6], code[7]),
        ) {
            (Some(r), Some(g), Some(b), Some(a)) => Some((r, g, b, a)),
            _ => None,
        }
    } else {
        None
    }
}

/// The color with alpha `palette` reads from a hex code (its `FromStr` for `Rgba<_, u8>`):
/// one leading `#` dropped, then four single digits (each widened) or four pairs; any other
/// length in bytes is a format error.
pub open spec fn spec_rgba_hex(h: Seq<char>) -> Result<(u8, u8, u8, u8), HexColorError> {
    let code = strip_one_leading(h, '#');
    let n = encode_utf8(code).len();
    if n == 4 {
        if code.len() == 4 && nibble(code[0]) is Some && nibble(code[1]) is Some && nibble(code[2]) is Some
            && nibble(code[3]) is Some {
            Ok((
                widen(nibble(code[0])->0),
                widen(nibble(code[1])->0),
                widen(nibble(code[2])->0),
                widen(nibble(code[3])->0),
            ))
        } else {
            Err(HexColorError::Digits)
        }
    } else if n == 8 {
        match hex_quad(code) {
            Some(q) => Ok(q),
            None => Err(HexColorError::Digits),
        }
    } else {
        Err(HexColorError::RgbaFormat)
    }
}

/// `palette`'s opaque parse slices its code at byte positions (1 and 2, or 2 and 4), which
/// panics when a cut falls inside a character.
pub open spec fn rgb_slicing_panics(h: Seq<char>) -> bool {
    let code = strip_one_leading(h, '#');
    let b = encode_utf8(code);
    (b.len() == 3 && !(is_char_boundary(b, 1) && is_char_boundary(b, 2))) || triple_slicing_panics(code)
}

/// `palette`'s parse with alpha slices its code at byte positions (1, 2 and 3, or 2, 4
/// and 6), which panics when a cut falls inside a character.
pub open spec fn rgba_slicing_panics(h: Seq<char>) -> bool {
    let code = strip_one_leading(h, '#');
    let b = encode_utf8(code);
    ||| (b.len() == 4 && !(is_char_boundary(b, 1) && is_char_boundary(b, 2) && is_char_boundary(b, 3)))
    ||| (b.len() == 8 && !(is_char_boundary(b, 2) && is_char_boundary(b, 4) && is_char_boundary(b, 6)))
}

/// `<Rgb<_, u8> as FromStr>::from_str` (palette), for a linear sRGB color: claimed to give
/// what [`spec_rgb_hex`] says, on every code it does not panic on (the source's own
/// slicing; see [`rgb_slicing_panics`]). Its three error variants map one for one.
#[verifier::external_body]
fn palette_rgb(hex: &str) -> (r: Result<(u8, u8, u8), HexColorError>)
    requires
        !rgb_slicing_panics(hex@),
    ensures
        r == spec_rgb_hex(hex@),
{
    match hex.parse::<palette::LinSrgb<u8>>() {
        Ok(c) => Ok((c.red, c.green, c.blue)),
        Err(palette::rgb::FromHexError::ParseIntError(_)) => Err(HexColorError::Digits),
        Err(palette::rgb::FromHexError::HexFormatError(_)) => Err(HexColorError::RgbFormat),
        Err(palette::rgb::FromHexError::RgbaHexFormatError(_)) => Err(HexColorError::RgbaFormat),
    }
}

/// `<Rgba<_, u8> as FromStr>::from_str` (palette), for a linear sRGB color with alpha:
/// claimed to give what [`spec_rgba_hex`] says, on every code it does not panic on (see
/// [`rgba_slicing_panics`]). Its three error variants map one for one.
#[verifier::external_body]
fn palette_rgba(hex: &str) -> (r: Result<(u8, u8, u8, u8), HexColorError>)
    requires
        !rgba_slicing_panics(hex@),
    ensures
        r == spec_rgba_hex(hex@),
{
    match hex.parse::<palette::LinSrgba<u8>>() {
        Ok(c) => Ok((c.color.red, c.color.green, c.color.blue, c.alpha)),
        Err(palette::rgb::FromHexError::ParseIntError(_)) => Err(HexColorError::Digits),
        Err(palette::rgb::FromHexError::HexFormatError(_)) => Err(HexColorError::RgbFormat),
        Err(palette::rgb::FromHexError::RgbaHexFormatError(_)) => Err(HexColorError::RgbaFormat),
    }
}

/// The color a hex code gives: with one leading `#` dropped, an eight-byte code is read
/// with alpha, anything else as an opaque color (alpha 255).
pub open spec fn spec_color(s: Seq<char>) -> Result<(u8, u8, u8, u8), HexColorError> {
    let c = strip_one_leading(s, '#');
    if encode_utf8(c).len() == 8 {
        spec_rgba_hex(c)
    } else {
        match spec_rgb_hex(c) {
            Ok((r, g, b)) => Ok((r, g, b, 255u8)),
            Err(e) => Err(e),
        }
    }
}

/// Reading the code panics (inside `palette`).
pub open spec fn color_parse_panics(s: Seq<char>) -> bool {
    let c = strip_one_leading(s, '#');
    if encode_utf8(c).len() == 8 {
        rgba_slicing_panics(c)
    } else {
        rgb_slicing_panics(c)
    }
}

/// Red, green, blue and alpha components.
#[derive(Clone, Copy, Debug, PartialEq, Eq, Structural)]
pub struct Rgba {
    pub red: u8,
    pub green: u8,
    pub blue: u8,
    pub alpha: u8,
}

/// The components `(red, green, blue, alpha)` as an [`Rgba`].
pub open spec fn rgba_of(t: (u8, u8, u8, u8)) -> Rgba {
    Rgba { red: t.0, green: t.1, blue: t.2, alpha: t.3 }
}

/// A color, or none at all (the default).
#[derive(Clone, Copy, Debug, PartialEq, Eq, Structural)]
pub struct Color(pub Option<Rgba>);

impl Default for Color {
    fn default() -> (r: Self)
        ensures
            r == Color(None),
    {
        Color(None)
    }
}

impl Color {
    /// The color with these components.
    pub fn new(r: u8, g: u8, b: u8, a: u8) -> (c: Self)
        ensures
            c == Color(Some(Rgba { red: r, green: g, blue: b, alpha: a })),
    {
        Color(Some(Rgba { red: r, green: g, blue: b, alpha: a }))
    }

    /// Reads a hex code: `#rgb`, `#rrggbb` (opaque) or `#rrggbbaa`, the `#` optional.
    pub fn try_from(color: &str) -> (r: Result<Self, HexColorError>)
        requires
            !color_parse_panics(color@),
        ensures
            r == (match spec_color(color@) {
                Ok(c) => Ok(Color(Some(rgba_of(c)))),
                Err(e) => Err(e),
            }),
    {
        let code = strip_one_char(color, '#');
        let n = code.as_bytes().len();
        if n == 8 {
            match palette_rgba(code) {
                Ok((r, g, b, a)) => Ok(Color::new(r, g, b, a)),
                Err(e) => Err(e),
            }
        } else {
            match palette_rgb(code) {
                Ok((r, g, b)) => Ok(Color::new(r, g, b, 255)),
                Err(e) => Err(e),
            }
        }
    }

    /// Reads a hex code as [`Color::try_from`] does; no color at all when it is not one.
    pub fn from(color: &str) -> (r: Self)
        requires
            !color_parse_panics(color@),
        ensures
            r == (match spec_color(color@) {
                Ok(c) => Color(Some(rgba_of(c))),
                Err(_) => Color(None),
            }),
    {
        match Color::try_from(color) {
            Ok(c) => c,
            Err(_) => Color(None),
        }
    }
}

/// A node's background color.
#[derive(Clone, Copy, Debug, PartialEq, Eq, Structural)]
pub struct BackgroundColor(pub Color);

impl BackgroundColor {
    /// The background color with these components.
    pub fn new(r: u8, g: u8, b: u8, a: u8) -> (c: Self)
        ensures
            c == BackgroundColor(Color(Some(Rgba { red: r, green: g, blue: b, alpha: a }))),
    {
        BackgroundColor(Color::new(r, g, b, a))
    }

    /// Reads a hex code as [`Color::try_from`] does.
    pub fn try_from(color: &str) -> (r: Result<Self, HexColorError>)
        requires
            !color_parse_panics(color@),
        ensures
            r == (match spec_color(color@) {
                Ok(c) => Ok(BackgroundColor(Color(Some(rgba_of(c))))),
                Err(e) => Err(e),
            }),
    {
        match Color::try_from(color) {
            Ok(c) => Ok(BackgroundColor(c)),
            Err(e) => Err(e),
        }
    }

    /// Reads a hex code as [`Color::from`] does.
    pub fn from(color: &str) -> (r: Self)
        requires
            !color_parse_panics(color@),
        ensures
            r == BackgroundColor(Color::from_spec_text(color@)),
    {
        BackgroundColor(Color::from(color))
    }
}

/// A node's text color.
#[derive(Clone, Copy, Debug, PartialEq, Eq, Structural)]
pub struct ContentColor(pub Color);

impl ContentColor {
    /// The text color with these components.
    pub fn new(r: u8, g: u8, b: u8, a: u8) -> (c: Self)
        ensures
            c == ContentColor(Color(Some(Rgba { red: r, green: g, blue: b, alpha: a }))),
    {
        ContentColor(Color::new(r, g, b, a))
    }

    /// Reads a hex code as [`Color::try_from`] does.
    pub fn try_from(color: &str) -> (r: Result<Self, HexColorError>)
        requires
            !color_parse_panics(color@),
        ensures
            r == (match spec_color(color@) {
                Ok(c) => Ok(ContentColor(Color(Some(rgba_of(c))))),
                Err(e) => Err(e),
            }),
    {
        match Color::try_from(color) {
            Ok(c) => Ok(ContentColor(c)),
            Err(e) => Err(e),
        }
    }

    /// Reads a hex code as [`Color::from`] does.
    pub fn from(color: &str) -> (r: Self)
        requires
            !color_parse_panics(color@),
        ensures
            r == ContentColor(Color::from_spec_text(color@)),
    {
        ContentColor(Color::from(color))
    }
}

impl Color {
    /// The color a hex code gives, none when it is not one.
    pub open spec fn from_spec_text(s: Seq<char>) -> Color {
        match spec_color(s) {
            Ok(c) => Color(Some(rgba_of(c))),
            Err(_) => Color(None),
        }
    }
}

/// The kind of a content color among style properties.
pub const CONTENT_COLOR_KIND: u64 = 8;

/// The kind of a background color among style properties.
pub const BACKGROUND_COLOR_KIND: u64 = 9;

/// Every content color is the same kind of property.
impl StyleKind for ContentColor {
    open spec fn kind_of(&self) -> u64 {
        CONTENT_COLOR_KIND
    }

    fn kind(&self) -> (r: u64) {
        CONTENT_COLOR_KIND
    }
}

/// Every background color is the same kind of property.
impl StyleKind for BackgroundColor {
    open spec fn kind_of(&self) -> u64 {
        BACKGROUND_COLOR_KIND
    }

    fn kind(&self) -> (r: u64) {
        BACKGROUND_COLOR_KIND
    }
}

} // verus!

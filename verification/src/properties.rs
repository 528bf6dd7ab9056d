//! OOXML value parsers for run and paragraph properties.

use vstd::prelude::*;

use crate::events::{opt_chars, Color, TextAlignment};
use crate::text::{chars_of, parse_unsigned, spec_parse_u32, spec_parse_unsigned, str_eq, parse_u32};

verus! {

/// `ST_OnOff`: present with no value, or any value but `false`/`0`/`off`, is on.
pub open spec fn spec_parse_on_off(val: Option<Seq<char>>) -> bool {
    !(val == Some("false"@) || val == Some("0"@) || val == Some("off"@))
}

/// Parses an `ST_OnOff` value (ECMA-376 §22.9.2.7).
///
/// Element-present with no `w:val` = ON. Unknown values treated as ON (lenient).
pub fn parse_on_off(val: Option<&str>) -> (r: bool)
    ensures
        r == spec_parse_on_off(opt_chars(val)),
{
    match val {
        None => true,
        Some(s) => !(str_eq(s, "false") || str_eq(s, "0") || str_eq(s, "off")),
    }
}

/// Vertical alignment for text (subscript, superscript, or baseline).
#[derive(Debug, Clone, Copy, PartialEq, Eq)]
pub enum VertAlign {
    /// Baseline (default, no vertical shift).
    Baseline,
    /// Subscript (below baseline).
    Subscript,
    /// Superscript (above baseline).
    Superscript,
}

/// The vertical alignment a `w:vertAlign` value names.
pub open spec fn spec_parse_vert_align(val: Option<Seq<char>>) -> VertAlign {
    if val == Some("subscript"@) {
        VertAlign::Subscript
    } else if val == Some("superscript"@) {
        VertAlign::Superscript
    } else {
        VertAlign::Baseline
    }
}

/// Parses a `ST_VerticalAlignRun` value. `baseline` and unknown values map to `None`.
pub fn parse_vert_align(val: Option<&str>) -> (r: VertAlign)
    ensures
        r == spec_parse_vert_align(opt_chars(val)),
{
    match val {
        Some(s) => if str_eq(s, "subscript") {
            VertAlign::Subscript
        } else if str_eq(s, "superscript") {
            VertAlign::Superscript
        } else {
            VertAlign::Baseline
        },
        None => VertAlign::Baseline,
    }
}

/// Whether a `w:u` value turns underlining on.
pub open spec fn spec_parse_underline_on(val: Option<Seq<char>>) -> bool {
    match val {
        None => false,
        Some(s) => s != "none"@,
    }
}

/// Parses `w:u` underline state. Unlike `ST_OnOff`, element-present with no `w:val` = OFF.
/// Only a non-`"none"` `w:val` enables underline (ECMA-376 §17.3.2.40).
pub fn parse_underline_on(val: Option<&str>) -> (r: bool)
    ensures
        r == spec_parse_underline_on(opt_chars(val)),
{
    match val {
        None => false,
        Some(s) => !str_eq(s, "none"),
    }
}

/// The paragraph alignment a `w:jc` value names.
pub open spec fn spec_parse_alignment(val: Seq<char>) -> Option<TextAlignment> {
    if val == "left"@ || val == "start"@ {
        Some(TextAlignment::Left)
    } else if val == "right"@ || val == "end"@ {
        Some(TextAlignment::Right)
    } else if val == "center"@ {
        Some(TextAlignment::Center)
    } else if val == "both"@ || val == "distribute"@ {
        Some(TextAlignment::Justify)
    } else {
        None
    }
}

/// Parses `w:jc` paragraph alignment. `start`→Left, `end`→Right (no `BiDi` tracking).
pub fn parse_alignment(val: &str) -> (r: Option<TextAlignment>)
    ensures
        r == spec_parse_alignment(val@),
{
    if str_eq(val, "left") || str_eq(val, "start") {
        Some(TextAlignment::Left)
    } else if str_eq(val, "right") || str_eq(val, "end") {
        Some(TextAlignment::Right)
    } else if str_eq(val, "center") {
        Some(TextAlignment::Center)
    } else if str_eq(val, "both") || str_eq(val, "distribute") {
        Some(TextAlignment::Justify)
    } else {
        None
    }
}

/// The value of two hexadecimal characters as `u8::from_str_radix` reads them.
pub open spec fn spec_hex_pair(a: char, b: char) -> Option<u8> {
    match spec_parse_unsigned(seq![a, b], 16, 255) {
        Ok(v) => Some(v as u8),
        Err(_) => None,
    }
}

/// `s` without one leading `#`.
pub open spec fn strip_hash(s: Seq<char>) -> Seq<char> {
    if s.len() > 0 && s[0] == '#' { s.drop_first() } else { s }
}

/// A hex color: `#` optional, then 3 digits (each doubled) or 6 digits.
pub open spec fn spec_parse_hex_color(val: Seq<char>) -> Option<Color> {
    let s = strip_hash(val);
    if s.len() == 3 {
        match (spec_hex_pair(s[0], s[0]), spec_hex_pair(s[1], s[1]), spec_hex_pair(s[2], s[2])) {
            (Some(r), Some(g), Some(b)) => Some(Color::Rgb { r, g, b }),
            _ => None,
        }
    } else if s.len() == 6 {
        match (spec_hex_pair(s[0], s[1]), spec_hex_pair(s[2], s[3]), spec_hex_pair(s[4], s[5])) {
            (Some(r), Some(g), Some(b)) => Some(Color::Rgb { r, g, b }),
            _ => None,
        }
    } else {
        None
    }
}

fn hex_pair(a: char, b: char) -> (r: Option<u8>)
    ensures
        r == spec_hex_pair(a, b),
{
    let pair = vec![a, b];
    assert(pair@ =~= seq![a, b]);
    match parse_unsigned(pair.as_slice(), 16, 255) {
        Ok(v) => Some(v as u8),
        Err(_) => None,
    }
}

/// Parses a hex color string (with or without leading `#`, 3 or 6 hex digits) into a `Color`.
///
/// Returns `None` for `"auto"`, empty strings, non-hex input, or lengths other than 3 or 6.
pub fn parse_hex_color(val: &str) -> (r: Option<Color>)
    ensures
        r == spec_parse_hex_color(val@),
{
    let all = chars_of(val);
    let s: Vec<char> = if all.len() > 0 && all[0] == '#' {
        let mut rest: Vec<char> = Vec::new();
        let mut i: usize = 1;
        while i < all.len()
            invariant
                1 <= i <= all@.len(),
                rest@ == all@.subrange(1, i as int),
            decreases all@.len() - i,
        {
            rest.push(all[i]);
            i = i + 1;
        }
        assert(rest@ =~= all@.drop_first());
        rest
    } else {
        all
    };
    assert(s@ == strip_hash(val@));
    if s.len() == 3 {
        match (hex_pair(s[0], s[0]), hex_pair(s[1], s[1]), hex_pair(s[2], s[2])) {
            (Some(r), Some(g), Some(b)) => Some(Color::Rgb { r, g, b }),
            _ => None,
        }
    } else if s.len() == 6 {
        match (hex_pair(s[0], s[1]), hex_pair(s[2], s[3]), hex_pair(s[4], s[5])) {
            (Some(r), Some(g), Some(b)) => Some(Color::Rgb { r, g, b }),
            _ => None,
        }
    } else {
        None
    }
}

/// The column span a `w:gridSpan` value gives: a number above one.
pub open spec fn spec_parse_grid_span_value(val: Option<Seq<char>>) -> Option<u32> {
    match val {
        None => None,
        Some(s) => match spec_parse_u32(s) {
            Some(n) => if n > 1 { Some(n) } else { None },
            None => None,
        },
    }
}

/// Parses `w:gridSpan` column span value (ECMA-376 §17.4.17).
///
/// `None` when absent, when `1` (the default), or when not a number above 1.
pub fn parse_grid_span_value(val: Option<&str>) -> (r: Option<u32>)
    ensures
        r == spec_parse_grid_span_value(opt_chars(val)),
{
    match val {
        None => None,
        Some(s) => match parse_u32(s) {
            Some(n) => if n > 1 { Some(n) } else { None },
            None => None,
        },
    }
}

/// The color a `w:color` value gives.
pub open spec fn spec_parse_color_val(val: Option<Seq<char>>) -> Option<Color> {
    match val {
        None => None,
        Some(s) => spec_parse_hex_color(s),
    }
}

/// Parses the `w:val` attribute of a `<w:color>` element.
///
/// Returns `None` for absent attribute, `"auto"`, or non-hex values.
pub fn parse_color_val(val: Option<&str>) -> (r: Option<Color>)
    ensures
        r == spec_parse_color_val(opt_chars(val)),
{
    match val {
        None => None,
        Some(s) => parse_hex_color(s),
    }
}

/// Highlight color palette (OOXML standard 16 colors, excluding "none").
pub open spec fn spec_highlight_color(name: Seq<char>) -> Option<Color> {
    if name == "black"@ { Some(Color::Rgb { r: 0, g: 0, b: 0 }) }
    else if name == "blue"@ { Some(Color::Rgb { r: 0, g: 0, b: 255 }) }
    else if name == "cyan"@ { Some(Color::Rgb { r: 0, g: 255, b: 255 }) }
    else if name == "green"@ { Some(Color::Rgb { r: 0, g: 255, b: 0 }) }
    else if name == "magenta"@ { Some(Color::Rgb { r: 255, g: 0, b: 255 }) }
    else if name == "red"@ { Some(Color::Rgb { r: 255, g: 0, b: 0 }) }
    else if name == "yellow"@ { Some(Color::Rgb { r: 255, g: 255, b: 0 }) }
    else if name == "white"@ { Some(Color::Rgb { r: 255, g: 255, b: 255 }) }
    else if name == "darkBlue"@ { Some(Color::Rgb { r: 0, g: 0, b: 128 }) }
    else if name == "darkCyan"@ { Some(Color::Rgb { r: 0, g: 128, b: 128 }) }
    else if name == "darkGreen"@ { Some(Color::Rgb { r: 0, g: 128, b: 0 }) }
    else if name == "darkMagenta"@ { Some(Color::Rgb { r: 128, g: 0, b: 128 }) }
    else if name == "darkRed"@ { Some(Color::Rgb { r: 128, g: 0, b: 0 }) }
    else if name == "darkYellow"@ { Some(Color::Rgb { r: 128, g: 128, b: 0 }) }
    else if name == "darkGray"@ { Some(Color::Rgb { r: 128, g: 128, b: 128 }) }
    else if name == "lightGray"@ { Some(Color::Rgb { r: 192, g: 192, b: 192 }) }
    else { None }
}

/// The color a `w:highlight` value names; none for `none`.
pub open spec fn spec_parse_highlight_val(val: Option<Seq<char>>) -> Option<Color> {
    match val {
        None => None,
        Some(s) => if s == "none"@ { None } else { spec_highlight_color(s) },
    }
}

/// Parses the `w:val` attribute of a `<w:highlight>` element.
///
/// Returns `None` for absent attribute, `"none"`, or unknown names.
pub fn parse_highlight_val(val: Option<&str>) -> (r: Option<Color>)
    ensures
        r == spec_parse_highlight_val(opt_chars(val)),
{
    let s = match val {
        None => return None,
        Some(s) => s,
    };
    if str_eq(s, "none") { return None; }
    if str_eq(s, "black") { Some(Color::Rgb { r: 0, g: 0, b: 0 }) }
    else if str_eq(s, "blue") { Some(Color::Rgb { r: 0, g: 0, b: 255 }) }
    else if str_eq(s, "cyan") { Some(Color::Rgb { r: 0, g: 255, b: 255 }) }
    else if str_eq(s, "green") { Some(Color::Rgb { r: 0, g: 255, b: 0 }) }
    else if str_eq(s, "magenta") { Some(Color::Rgb { r: 255, g: 0, b: 255 }) }
    else if str_eq(s, "red") { Some(Color::Rgb { r: 255, g: 0, b: 0 }) }
    else if str_eq(s, "yellow") { Some(Color::Rgb { r: 255, g: 255, b: 0 }) }
    else if str_eq(s, "white") { Some(Color::Rgb { r: 255, g: 255, b: 255 }) }
    else if str_eq(s, "darkBlue") { Some(Color::Rgb { r: 0, g: 0, b: 128 }) }
    else if str_eq(s, "darkCyan") { Some(Color::Rgb { r: 0, g: 128, b: 128 }) }
    else if str_eq(s, "darkGreen") { Some(Color::Rgb { r: 0, g: 128, b: 0 }) }
    else if str_eq(s, "darkMagenta") { Some(Color::Rgb { r: 128, g: 0, b: 128 }) }
    else if str_eq(s, "darkRed") { Some(Color::Rgb { r: 128, g: 0, b: 0 }) }
    else if str_eq(s, "darkYellow") { Some(Color::Rgb { r: 128, g: 128, b: 0 }) }
    else if str_eq(s, "darkGray") { Some(Color::Rgb { r: 128, g: 128, b: 128 }) }
    else if str_eq(s, "lightGray") { Some(Color::Rgb { r: 192, g: 192, b: 192 }) }
    else { None }
}

/// Parses the `w:fill` attribute of a `<w:shd>` element.
///
/// Returns `None` for absent attribute, `"auto"`, or non-hex values.
/// The `w:val` pattern attribute is intentionally ignored.
pub fn parse_shd_fill(fill: Option<&str>) -> (r: Option<Color>)
    ensures
        r == spec_parse_color_val(opt_chars(fill)),
{
    match fill {
        None => None,
        Some(s) => parse_hex_color(s),
    }
}

/// A `w:char` value as a table key: hex, with Word's `0xF000` private-use
/// offset removed, and only when the result fits in a byte.
pub open spec fn spec_parse_sym_char(hex: Seq<char>) -> Option<u8> {
    match spec_parse_unsigned(hex, 16, 0xFFFF) {
        Ok(raw) => {
            let stripped = if raw >= 0xF000 { raw - 0xF000 } else { raw as int };
            if stripped <= 255 { Some(stripped as u8) } else { None }
        },
        Err(_) => None,
    }
}

/// Parse a `w:char` attribute value (hex string, typically 4 digits, u16 range)
/// into a u8 table-lookup key, applying Word's PUA stripping convention.
pub fn parse_sym_char(hex: &str) -> (r: Option<u8>)
    ensures
        r == spec_parse_sym_char(hex@),
{
    let cs = chars_of(hex);
    match parse_unsigned(cs.as_slice(), 16, 0xFFFF) {
        Ok(raw) => {
            let stripped: u64 = if raw >= 0xF000 { raw - 0xF000 } else { raw };
            if stripped <= 255 { Some(stripped as u8) } else { None }
        },
        Err(_) => None,
    }
}

} // verus!

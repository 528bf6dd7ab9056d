//! Symbol font codepoint dispatcher.

use vstd::prelude::*;

use crate::symbol_tables::{symbol_char, spec_symbol_char, spec_webdings_char, spec_wingdings_2_char,
    spec_wingdings_char, webdings_char, wingdings_2_char, wingdings_char};
use crate::text::{eq_ignore_ascii_case, spec_eq_ignore_ascii_case};

verus! {

/// Symbol font dispatcher.
///
/// Maps font names to their codepoint conversion tables.
#[derive(Debug, Clone, Copy, PartialEq, Eq)]
pub enum SymbolFont {
    /// Wingdings font.
    Wingdings,
    /// Wingdings 2 font.
    Wingdings2,
    /// Wingdings 3 font (no mapping table ships with the crate).
    Wingdings3,
    /// Webdings font.
    Webdings,
    /// Symbol font.
    Symbol,
}

/// The symbol font a font name names, ignoring ASCII case.
pub open spec fn spec_font_from_name(name: Seq<char>) -> Option<SymbolFont> {
    if spec_eq_ignore_ascii_case(name, "Wingdings"@) {
        Some(SymbolFont::Wingdings)
    } else if spec_eq_ignore_ascii_case(name, "Wingdings 2"@) {
        Some(SymbolFont::Wingdings2)
    } else if spec_eq_ignore_ascii_case(name, "Wingdings 3"@) {
        Some(SymbolFont::Wingdings3)
    } else if spec_eq_ignore_ascii_case(name, "Webdings"@) {
        Some(SymbolFont::Webdings)
    } else if spec_eq_ignore_ascii_case(name, "Symbol"@) {
        Some(SymbolFont::Symbol)
    } else {
        None
    }
}

/// The character that `font` draws for code `cp`.
pub open spec fn spec_font_convert(font: SymbolFont, cp: u8) -> Option<char> {
    match font {
        SymbolFont::Wingdings => spec_wingdings_char(cp),
        SymbolFont::Wingdings2 => spec_wingdings_2_char(cp),
        SymbolFont::Wingdings3 => None,
        SymbolFont::Webdings => spec_webdings_char(cp),
        SymbolFont::Symbol => spec_symbol_char(cp),
    }
}

impl SymbolFont {
    /// Resolve a font name to a `SymbolFont` variant; matching is ASCII
    /// case-insensitive.
    pub fn from_name(name: &str) -> (r: Option<SymbolFont>)
        ensures
            r == spec_font_from_name(name@),
    {
        if eq_ignore_ascii_case(name, "Wingdings") {
            return Some(SymbolFont::Wingdings);
        }
        if eq_ignore_ascii_case(name, "Wingdings 2") {
            return Some(SymbolFont::Wingdings2);
        }
        if eq_ignore_ascii_case(name, "Wingdings 3") {
            return Some(SymbolFont::Wingdings3);
        }
        if eq_ignore_ascii_case(name, "Webdings") {
            return Some(SymbolFont::Webdings);
        }
        if eq_ignore_ascii_case(name, "Symbol") {
            return Some(SymbolFont::Symbol);
        }
        None
    }

    /// Convert a codepoint using this font's mapping table.
    pub fn convert(self, cp: u8) -> (r: Option<char>)
        ensures
            r == spec_font_convert(self, cp),
    {
        match self {
            SymbolFont::Wingdings => wingdings_char(cp),
            SymbolFont::Wingdings2 => wingdings_2_char(cp),
            SymbolFont::Wingdings3 => None,
            SymbolFont::Webdings => webdings_char(cp),
            SymbolFont::Symbol => symbol_char(cp),
        }
    }

    /// The table of this font as `(code, character)` pairs in increasing code
    /// order.
    pub fn entries(self) -> (t: Vec<(u8, char)>)
        ensures
            forall|i: int, j: int| 0 <= i < j < t@.len() ==> t@[i].0 < t@[j].0,
            forall|i: int| 0 <= i < t@.len() ==> spec_font_convert(self, t@[i].0) == Some(#[trigger] t@[i].1),
            forall|cp: u8| spec_font_convert(self, cp) is Some ==>
                exists|i: int| 0 <= i < t@.len() && #[trigger] t@[i].0 == cp,
    {
        let mut t: Vec<(u8, char)> = Vec::new();
        let mut cp: u32 = 0;
        while cp < 256
            invariant
                cp <= 256,
                forall|i: int| 0 <= i < t@.len() ==> (#[trigger] t@[i].0) < cp,
                forall|i: int, j: int| 0 <= i < j < t@.len() ==> t@[i].0 < t@[j].0,
                forall|i: int| 0 <= i < t@.len() ==> spec_font_convert(self, t@[i].0) == Some(#[trigger] t@[i].1),
                forall|c: u8| c < cp && spec_font_convert(self, c) is Some ==>
                    exists|i: int| 0 <= i < t@.len() && #[trigger] t@[i].0 == c,
            decreases 256 - cp,
        {
            let c: u8 = cp as u8;
            let ghost old_t = t@;
            if let Some(ch) = self.convert(c) {
                t.push((c, ch));
                assert(t@[t@.len() - 1].0 == c);
            }
            assert forall|d: u8| d < cp + 1 && spec_font_convert(self, d) is Some implies
                exists|i: int| 0 <= i < t@.len() && #[trigger] t@[i].0 == d by {
                if d < cp {
                    let i = choose|i: int| 0 <= i < old_t.len() && #[trigger] old_t[i].0 == d;
                    assert(t@[i] == old_t[i]);
                } else {
                    assert(t@[t@.len() - 1].0 == d);
                }
            }
            cp = cp + 1;
        }
        t
    }
}

} // verus!

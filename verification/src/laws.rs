//! Properties of the library that span its functions, stated over the
//! models their contracts use and proved.

use vstd::prelude::*;

use crate::content_types::{last_segment, spec_lookup, ContentTypesView};
use crate::text::{lemma_rfind_char, rfind_char};
use crate::document::{
    other_than, phantom_entries, phantom_events, pop_events, set_kind, spec_apply_rpr, spec_compute_start,
    spec_reconcile, spec_resolved_hyperlink, stack_wf, val_of, ListStackEntry, RunAccView,
};
use crate::events::{ListStyleType, TextStyleKind};
use crate::numbering::{not_a_list, spec_parse_num_fmt, spec_resolve, LevelOutcome, NumberingView};
use crate::styles::{StyleClassification, StyleType};
use crate::symbol_fonts::{spec_font_convert, SymbolFont};
use crate::xml::{lookup_exact, XmlTag};
use crate::paths::{
    bad_segment, canonical_segments, spec_part_path_rejection, spec_resolve_relative_target, split_slash,
    without_leading_slash,
};
use crate::styles::{first_style, num_pr_walk, spec_classify, spec_classify_name, StyleView};

verus! {

/// Canonicalizing the segments of a resolved target leaves no `.`, no `..`
/// and no empty segment: a normalized relationship target never climbs
/// above the package root.
pub proof fn law_canonical_segments_stay_in_package(segs: Seq<Seq<char>>)
    ensures
        canonical_segments(segs) matches Some(out) ==> forall|k: int| 0 <= k < out.len() ==> {
            &&& (#[trigger] out[k]) != seq!['.', '.']
            &&& out[k] != seq!['.']
            &&& out[k].len() > 0
        },
    decreases segs.len(),
{
    if segs.len() > 0 {
        law_canonical_segments_stay_in_package(segs.drop_last());
    }
}

/// A target that starts with `/` names the same part whatever the base part.
pub proof fn law_package_absolute_target(base1: Seq<char>, base2: Seq<char>, target: Seq<char>)
    requires
        target.len() > 0,
        target[0] == '/',
    ensures
        spec_resolve_relative_target(base1, target) == spec_resolve_relative_target(base2, target),
        spec_resolve_relative_target(base1, target) == target.drop_first(),
{
}

/// A part path that [`crate::paths::normalize_part_path`] accepts has no
/// `.`, `..`, empty or backslash-holding segment once a single leading `/`
/// is stripped.
pub proof fn law_accepted_part_path_has_clean_segments(target: Seq<char>)
    requires
        spec_part_path_rejection(target) is None,
    ensures
        forall|k: int| 0 <= k < split_slash(without_leading_slash(target)).len()
            ==> !bad_segment(#[trigger] split_slash(without_leading_slash(target))[k]),
{
}

/// An `Override` for a part wins over any `Default` for its extension.
pub proof fn law_override_beats_default(ct: ContentTypesView, part: Seq<char>)
    requires
        ct.overrides.contains_key(part),
    ensures
        spec_lookup(ct, part) == Some(ct.overrides[part]),
{
}

/// A part path whose last segment has no `.` has no extension, so only an
/// override can give it a content type: it never matches a default, not
/// even one whose extension equals the whole path.
pub proof fn law_no_extension_no_default(ct: ContentTypesView, part: Seq<char>)
    requires
        !ct.overrides.contains_key(part),
        !last_segment(part).contains('.'),
    ensures
        spec_lookup(ct, part) is None,
{
    let f = last_segment(part);
    lemma_rfind_char(f, '.');
    if rfind_char(f, '.') is Some {
        let i = rfind_char(f, '.')->0;
        assert(f[i] == '.');
        assert(f.contains('.'));
    }
}

/// A style whose own name classifies is classified by that name, whatever
/// its `basedOn` chain holds.
pub proof fn law_classify_own_name(styles: Seq<StyleView>, id: Seq<char>, i: int)
    requires
        first_style(styles, id) == Some(i),
        styles[i].name matches Some(n) && spec_classify_name(n, styles[i].kind) is Some,
    ensures
        spec_classify(styles, id) == spec_classify_name(styles[i].name->0, styles[i].kind),
{
    assert(!Seq::<Seq<char>>::empty().contains(id));
}

/// The `numPr` a style resolves to is `(0, 0)` whenever its `numId` is 0:
/// the explicit "no list" signal never carries a level.
pub proof fn law_num_pr_clear_signal(styles: Seq<StyleView>, id: Seq<char>, visited: Seq<Seq<char>>)
    ensures
        num_pr_walk(styles, id, visited) matches Some((n, l)) ==> (n == 0 ==> l == 0),
    decreases styles.len() + 1 - visited.len(),
{
    if visited.len() <= styles.len() {
        match first_style(styles, id) {
            None => {},
            Some(i) => {
                if !visited.contains(id) && styles[i].num_pr is None {
                    match styles[i].based_on {
                        None => {},
                        Some(b) => law_num_pr_clear_signal(styles, b, visited.push(id)),
                    }
                }
            },
        }
    }
}

/// Levels above 8 resolve as level 8, and `numId` 0 is never a list.
pub proof fn law_resolve_levels(n: NumberingView, num_id: u32, ilvl: u32)
    ensures
        ilvl >= 8 ==> spec_resolve(n, num_id, ilvl) == spec_resolve(n, num_id, 8),
        num_id == 0 ==> spec_resolve(n, num_id, ilvl) == not_a_list(),
{
}

/// The numbering of list items: the first item at a level shows 1; an item
/// that follows one at the same level shows nothing (it continues the
/// count); an item that resumes a level after an interruption shows the next
/// number.
pub proof fn law_list_numbering(count: u64)
    ensures
        spec_compute_start(0, false) == Some(1u64),
        spec_compute_start(0, true) == Some(1u64),
        count > 0 ==> spec_compute_start(count, true) is None,
        0 < count < u64::MAX ==> spec_compute_start(count, false) == Some((count + 1) as u64),
{
}

proof fn lemma_pop_events_len(s: Seq<ListStackEntry>, down_to: int)
    requires
        0 <= down_to,
    ensures
        pop_events(s, down_to).len() == if s.len() > down_to { s.len() - down_to } else { 0 },
    decreases s.len(),
{
    if s.len() > down_to && s.len() > 0 {
        lemma_pop_events_len(s.drop_last(), down_to);
    }
}

proof fn lemma_phantom_events_len(num_id: u32, from: int, to: int, is_ordered: bool)
    ensures
        phantom_events(num_id, from, to, is_ordered).len() == if to > from { to - from } else { 0 },
    decreases to - from,
{
    if from < to {
        lemma_phantom_events_len(num_id, from + 1, to, is_ordered);
    }
}

/// Reconciling the list stack for an item at level `ilvl` keeps the stack
/// well formed (levels `0 ..= ilvl`, in order), puts the item's level on top,
/// keeps the shallower levels that were open, and emits one end event per
/// closed level and one start event per level opened to reach `ilvl`.
pub proof fn law_reconcile_list_stack(s: Seq<ListStackEntry>, num_id: u32, ilvl: u32, is_ordered: bool)
    requires
        stack_wf(s),
    ensures
        ({
            let (s2, evs, sequential) = spec_reconcile(s, num_id, ilvl, is_ordered);
            let keep: int = if s.len() > ilvl { ilvl as int } else { s.len() as int };
            &&& stack_wf(s2)
            &&& s2.len() == ilvl + 1
            &&& s2[ilvl as int] == ListStackEntry { num_id, ilvl, is_ordered }
            &&& forall|k: int| 0 <= k < keep ==> s2[k] == s[k]
            &&& evs.len() == (s.len() - keep) + (ilvl - keep)
            &&& sequential == (s.len() > ilvl)
        }),
{
    let keep: int = if s.len() > ilvl { ilvl as int } else { s.len() as int };
    let kept = s.subrange(0, keep);
    let ph = phantom_entries(num_id, keep, ilvl as int, is_ordered);
    let s2 = kept + ph + seq![ListStackEntry { num_id, ilvl, is_ordered }];
    assert forall|k: int| 0 <= k < s2.len() implies #[trigger] s2[k].ilvl == k by {
        if k < keep {
            assert(s2[k] == s[k]);
        } else if k < ilvl {
            assert(s2[k] == ph[k - keep]);
        }
    }
    lemma_pop_events_len(s, keep);
    lemma_phantom_events_len(num_id, keep, ilvl as int, is_ordered);
}

/// Setting or clearing a run's style kind keeps at most one occurrence of
/// it: afterwards it occurs exactly when it was enabled, and never twice.
pub proof fn law_style_kind_single(kinds: Seq<TextStyleKind>, kind: TextStyleKind, enabled: bool)
    ensures
        set_kind(kinds, kind, enabled).contains(kind) == enabled,
        forall|i: int, j: int| 0 <= i < j < set_kind(kinds, kind, enabled).len()
            && #[trigger] set_kind(kinds, kind, enabled)[i] == kind
            ==> #[trigger] set_kind(kinds, kind, enabled)[j] != kind,
{
    let kept = kinds.filter(other_than(kind));
    kinds.filter_lemma(other_than(kind));
    assert(forall|i: int| 0 <= i < kept.len() ==> kept[i] != kind);
    if enabled {
        assert(kept.push(kind)[kept.len() as int] == kind);
    } else {
        assert(!kept.contains(kind));
    }
}


/// Whether an `ST_OnOff` value turns a property off.
pub open spec fn on_off_says_off(val: Option<Seq<char>>) -> bool {
    val == Some("false"@) || val == Some("0"@) || val == Some("off"@)
}

/// What a run-property toggle element must do to the run's style kinds:
/// it is a known property, it switches `kind` on unless its `w:val` says
/// off (an absent `w:val` is on), it touches no other kind, and it leaves
/// colours and font alone.
pub open spec fn toggles_kind(before: RunAccView, after: (RunAccView, bool), tag: XmlTag, kind: TextStyleKind) -> bool {
    &&& after.1
    &&& after.0.kinds.contains(kind) == !on_off_says_off(val_of(tag))
    &&& forall|k: TextStyleKind| k != kind ==> (after.0.kinds.contains(k) == before.kinds.contains(k))
    &&& after.0.text_color == before.text_color
    &&& after.0.mark == before.mark
    &&& after.0.shade == before.shade
    &&& after.0.font == before.font
}

/// `kinds` with `kind` set or cleared contains exactly the kinds it had
/// besides `kind`, and `kind` when enabled.
/// What a filter keeps was in the sequence.
proof fn lemma_filter_kept_was_there(s: Seq<TextStyleKind>, pred: spec_fn(TextStyleKind) -> bool, x: TextStyleKind)
    requires
        s.filter(pred).contains(x),
    ensures
        s.contains(x),
    decreases s.len(),
{
    reveal(Seq::filter);
    if s.len() > 0 {
        let f = s.drop_last().filter(pred);
        let j = choose|j: int| 0 <= j < s.filter(pred).len() && s.filter(pred)[j] == x;
        if pred(s.last()) && j == f.len() {
            assert(s[s.len() - 1] == x);
        } else {
            assert(f[j] == x);
            assert(f.contains(x));
            lemma_filter_kept_was_there(s.drop_last(), pred, x);
            let i = choose|i: int| 0 <= i < s.drop_last().len() && s.drop_last()[i] == x;
            assert(s[i] == x);
        }
    }
}

proof fn lemma_set_kind_contains(kinds: Seq<TextStyleKind>, kind: TextStyleKind, enabled: bool)
    ensures
        set_kind(kinds, kind, enabled).contains(kind) == enabled,
        forall|k: TextStyleKind| k != kind ==> (set_kind(kinds, kind, enabled).contains(k) == kinds.contains(k)),
{
    let kept = kinds.filter(other_than(kind));
    let r = set_kind(kinds, kind, enabled);
    kinds.filter_lemma(other_than(kind));
    assert forall|k: TextStyleKind| k != kind implies (r.contains(k) == kinds.contains(k)) by {
        if kinds.contains(k) {
            let i = choose|i: int| 0 <= i < kinds.len() && kinds[i] == k;
            assert(other_than(kind)(kinds[i]));
            assert(kept.contains(k));
            let j = choose|j: int| 0 <= j < kept.len() && kept[j] == k;
            if enabled {
                assert(r[j] == k);
            } else {
                assert(r[j] == k);
            }
            assert(r.contains(k));
        }
        if r.contains(k) {
            let j = choose|j: int| 0 <= j < r.len() && r[j] == k;
            if enabled && j == kept.len() {
                assert(r[j] == kind);
            } else {
                assert(r[j] == kept[j]);
                assert(kept.contains(k));
                lemma_filter_kept_was_there(kinds, other_than(kind), k);
            }
        }
    }
    assert(forall|i: int| 0 <= i < kept.len() ==> kept[i] != kind);
    if enabled {
        assert(kept.push(kind)[kept.len() as int] == kind);
    } else {
        assert(!kept.contains(kind));
    }
}

/// Bold, italic, strikethrough and double strikethrough in a `<w:rPr>` are
/// on/off toggles of their run style: `<w:b/>`, `<w:i/>`, `<w:strike/>` and
/// `<w:dstrike/>` (with `w:val` absent, or any value but `false`, `0`,
/// `off`) switch Bold, Italic and Strikethrough on; with such a value they
/// switch it off; no other style, colour or font changes.
pub proof fn law_rpr_toggles(styles: Seq<StyleView>, tag: XmlTag, a: RunAccView)
    ensures
        toggles_kind(a, spec_apply_rpr(styles, "b"@, tag, a), tag, TextStyleKind::Bold),
        toggles_kind(a, spec_apply_rpr(styles, "i"@, tag, a), tag, TextStyleKind::Italic),
        toggles_kind(a, spec_apply_rpr(styles, "strike"@, tag, a), tag, TextStyleKind::Strikethrough),
        toggles_kind(a, spec_apply_rpr(styles, "dstrike"@, tag, a), tag, TextStyleKind::Strikethrough),
{
    reveal_strlit("b");
    reveal_strlit("i");
    reveal_strlit("bCs");
    reveal_strlit("iCs");
    reveal_strlit("strike");
    reveal_strlit("dstrike");
    reveal_strlit("false");
    reveal_strlit("0");
    reveal_strlit("off");
    assert("b"@[0] != "i"@[0]);
    assert("strike"@.len() != "b"@.len() && "strike"@.len() != "i"@.len() && "strike"@.len() != "bCs"@.len()
        && "strike"@.len() != "iCs"@.len());
    assert("dstrike"@.len() != "b"@.len() && "dstrike"@.len() != "i"@.len() && "dstrike"@.len() != "bCs"@.len()
        && "dstrike"@.len() != "iCs"@.len());
    let v = val_of(tag);
    lemma_set_kind_contains(a.kinds, TextStyleKind::Bold, crate::properties::spec_parse_on_off(v));
    lemma_set_kind_contains(a.kinds, TextStyleKind::Italic, crate::properties::spec_parse_on_off(v));
    lemma_set_kind_contains(a.kinds, TextStyleKind::Strikethrough, crate::properties::spec_parse_on_off(v));
}

/// A `<w:hyperlink>` outside a code block links to the target its `r:id`
/// names in the document's relationships (no link for an unknown one);
/// without `r:id`, a non-empty `w:anchor` A makes an in-document link whose
/// href is `#` followed by A; with neither there is no link. Inside a code
/// block there is no link.
pub proof fn law_hyperlink_target(links: Map<Seq<char>, Seq<char>>, tag: XmlTag, is_preformatted: bool)
    ensures
        is_preformatted ==> spec_resolved_hyperlink(links, tag, is_preformatted) is None,
        !is_preformatted ==> (lookup_exact(tag.attrs@, "r:id"@) matches Some(id) ==> match spec_resolved_hyperlink(links, tag, is_preformatted) {
            Some((href, _)) => links.contains_key(id) && href == links[id],
            None => !links.contains_key(id),
        }),
        !is_preformatted && lookup_exact(tag.attrs@, "r:id"@) is None ==> match lookup_exact(tag.attrs@, "w:anchor"@) {
            Some(anchor) => if anchor.len() > 0 {
                spec_resolved_hyperlink(links, tag, is_preformatted) matches Some((href, _))
                    && href.len() == anchor.len() + 1 && href[0] == '#'
                    && href.subrange(1, href.len() as int) == anchor
            } else {
                spec_resolved_hyperlink(links, tag, is_preformatted) is None
            },
            None => spec_resolved_hyperlink(links, tag, is_preformatted) is None,
        },
{
    if !is_preformatted && lookup_exact(tag.attrs@, "r:id"@) is None {
        if let Some(anchor) = lookup_exact(tag.attrs@, "w:anchor"@) {
            if anchor.len() > 0 {
                assert((seq!['#'] + anchor).subrange(1, anchor.len() as int + 1) =~= anchor);
            }
        }
    }
}

/// Whether a list style numbers with lower-case letters or numerals.
pub open spec fn is_lower_case_style(s: ListStyleType) -> bool {
    s is LowerAlpha || s is LowerRoman
}

/// Whether a list style numbers with roman numerals.
pub open spec fn is_roman_style(s: ListStyleType) -> bool {
    s is LowerRoman || s is UpperRoman
}

/// Whether a list style numbers with letters.
pub open spec fn is_letter_style(s: ListStyleType) -> bool {
    s is LowerAlpha || s is UpperAlpha
}

/// The `ST_NumberFormat` value for numbering with letters or roman
/// numerals in lower or upper case.
pub open spec fn letter_or_roman_format(lower: bool, roman: bool) -> Seq<char> {
    (if lower { "lower"@ } else { "upper"@ }) + (if roman { "Roman"@ } else { "Letter"@ })
}

/// The letter and roman-numeral number formats keep their kind and their
/// case: `lowerRoman` numbers i, ii, iii; `upperRoman` I, II, III;
/// `lowerLetter` a, b, c; `upperLetter` A, B, C. `none` is no list,
/// `bullet` a bulleted list, and any other format numbers with plain
/// numbers; a format is read as roman or letters only when it names them.
pub proof fn law_num_fmt_keeps_kind_and_case(lower: bool, roman: bool, v: Seq<char>)
    ensures
        spec_parse_num_fmt(letter_or_roman_format(lower, roman)) matches LevelOutcome::List(s)
            && is_lower_case_style(s) == lower && is_roman_style(s) == roman && is_letter_style(s) == !roman,
        spec_parse_num_fmt("none"@) is NotAList,
        spec_parse_num_fmt("bullet"@) == LevelOutcome::List(ListStyleType::Disc),
        spec_parse_num_fmt(v) matches LevelOutcome::List(s) ==> ((is_roman_style(s) || is_letter_style(s))
            ==> v == letter_or_roman_format(is_lower_case_style(s), is_roman_style(s))),
        v != "none"@ && v != "bullet"@ && !(exists|lo: bool, ro: bool| v == letter_or_roman_format(lo, ro))
            ==> spec_parse_num_fmt(v) == LevelOutcome::List(ListStyleType::Decimal),
{
    reveal_strlit("lower");
    reveal_strlit("upper");
    reveal_strlit("Roman");
    reveal_strlit("Letter");
    reveal_strlit("lowerRoman");
    reveal_strlit("upperRoman");
    reveal_strlit("lowerLetter");
    reveal_strlit("upperLetter");
    reveal_strlit("none");
    reveal_strlit("bullet");
    assert("lower"@ + "Roman"@ =~= "lowerRoman"@);
    assert("upper"@ + "Roman"@ =~= "upperRoman"@);
    assert("lower"@ + "Letter"@ =~= "lowerLetter"@);
    assert("upper"@ + "Letter"@ =~= "upperLetter"@);
    assert("lowerRoman"@.len() != "none"@.len() && "lowerRoman"@.len() != "bullet"@.len()
        && "lowerRoman"@.len() != "lowerLetter"@.len() && "lowerRoman"@.len() != "upperLetter"@.len());
    assert("upperRoman"@.len() != "none"@.len() && "upperRoman"@.len() != "bullet"@.len()
        && "upperRoman"@.len() != "lowerLetter"@.len() && "upperRoman"@.len() != "upperLetter"@.len()
        && "upperRoman"@[0] != "lowerRoman"@[0]);
    assert("lowerLetter"@.len() != "none"@.len() && "lowerLetter"@.len() != "bullet"@.len()
        && "upperLetter"@[0] != "lowerLetter"@[0]);
    assert("upperLetter"@.len() != "none"@.len() && "upperLetter"@.len() != "bullet"@.len());
    if !(exists|lo: bool, ro: bool| v == letter_or_roman_format(lo, ro)) {
        assert(v != letter_or_roman_format(true, true));
        assert(v != letter_or_roman_format(false, true));
        assert(v != letter_or_roman_format(true, false));
        assert(v != letter_or_roman_format(false, false));
    }
}

/// Word's built-in quotation styles (`Quote`, `Intense Quote`,
/// `Block Text`) and the names `Block Quote` and `Block Quotation` mark
/// block quotes, whatever kind of style bears them.
pub proof fn law_quote_names_are_block_quotes(kind: StyleType, name: Seq<char>)
    ensures
        (name == "Quote"@ || name == "Intense Quote"@ || name == "Block Text"@ || name == "Block Quote"@
            || name == "Block Quotation"@) ==> spec_classify_name(name, kind) == Some(StyleClassification::BlockQuote),
{
    reveal_strlit("Title");
    reveal_strlit("Quote");
    reveal_strlit("Intense Quote");
    reveal_strlit("Block Text");
    reveal_strlit("Block Quote");
    reveal_strlit("Block Quotation");
    assert("Title"@[0] != "Quote"@[0] && "Title"@[0] != "Intense Quote"@[0] && "Title"@[0] != "Block Text"@[0]
        && "Title"@[0] != "Block Quote"@[0] && "Title"@[0] != "Block Quotation"@[0]);
}

/// The Symbol font draws Greek letters in place of the ASCII letters: each
/// lower-case letter code (`a`..`z`) and each upper-case one but `D` (which
/// draws the increment sign) converts to a character of the Greek block
/// (U+0370..U+03FF), lower-case letters to lower-case Greek
/// (U+03B1..U+03D6); `a` is alpha and `A` Alpha. Its digits stay digits.
pub proof fn law_symbol_font_greek(cp: u8)
    ensures
        0x61 <= cp <= 0x7A ==> (spec_font_convert(SymbolFont::Symbol, cp) matches Some(c)
            && 0x3B1 <= (c as u32) <= 0x3D6),
        0x41 <= cp <= 0x5A && cp != 0x44 ==> (spec_font_convert(SymbolFont::Symbol, cp) matches Some(c)
            && 0x370 <= (c as u32) <= 0x3FF),
        0x30 <= cp <= 0x39 ==> (spec_font_convert(SymbolFont::Symbol, cp) matches Some(c) && (c as u32) == cp),
        spec_font_convert(SymbolFont::Symbol, 0x61) == Some('\u{3B1}'),
        spec_font_convert(SymbolFont::Symbol, 0x41) == Some('\u{391}'),
{
}


/// Underline, superscript/subscript and the complex-script toggles in a
/// `<w:rPr>`: `<w:u>` underlines only with a `w:val` other than `none` (an
/// absent `w:val` does not); `<w:vertAlign>` makes the run superscript for
/// `superscript`, subscript for `subscript`, and neither otherwise, never
/// both; `<w:bCs/>` and `<w:iCs/>` change nothing. None of them touches
/// another style, the colours or the font.
pub proof fn law_rpr_underline_and_vert_align(styles: Seq<StyleView>, tag: XmlTag, a: RunAccView)
    ensures
        ({
            let r = spec_apply_rpr(styles, "u"@, tag, a);
            &&& r.1
            &&& r.0.kinds.contains(TextStyleKind::Underline) == (val_of(tag) matches Some(v) && v != "none"@)
            &&& forall|k: TextStyleKind| k != TextStyleKind::Underline ==> (r.0.kinds.contains(k) == a.kinds.contains(k))
            &&& r.0.text_color == a.text_color && r.0.mark == a.mark && r.0.shade == a.shade && r.0.font == a.font
        }),
        ({
            let r = spec_apply_rpr(styles, "vertAlign"@, tag, a);
            &&& r.1
            &&& r.0.kinds.contains(TextStyleKind::Superscript) == (val_of(tag) == Some("superscript"@))
            &&& r.0.kinds.contains(TextStyleKind::Subscript) == (val_of(tag) == Some("subscript"@))
            &&& forall|k: TextStyleKind| k != TextStyleKind::Superscript && k != TextStyleKind::Subscript
                ==> (r.0.kinds.contains(k) == a.kinds.contains(k))
            &&& r.0.text_color == a.text_color && r.0.mark == a.mark && r.0.shade == a.shade && r.0.font == a.font
        }),
        spec_apply_rpr(styles, "bCs"@, tag, a) == (a, true),
        spec_apply_rpr(styles, "iCs"@, tag, a) == (a, true),
{
    reveal_strlit("b");
    reveal_strlit("i");
    reveal_strlit("bCs");
    reveal_strlit("iCs");
    reveal_strlit("strike");
    reveal_strlit("dstrike");
    reveal_strlit("u");
    reveal_strlit("vertAlign");
    reveal_strlit("none");
    reveal_strlit("superscript");
    reveal_strlit("subscript");
    assert("u"@[0] != "b"@[0] && "u"@[0] != "i"@[0] && "u"@.len() != "bCs"@.len() && "u"@.len() != "iCs"@.len()
        && "u"@.len() != "strike"@.len() && "u"@.len() != "dstrike"@.len());
    assert("vertAlign"@.len() != "b"@.len() && "vertAlign"@.len() != "i"@.len() && "vertAlign"@.len() != "bCs"@.len()
        && "vertAlign"@.len() != "iCs"@.len() && "vertAlign"@.len() != "strike"@.len()
        && "vertAlign"@.len() != "dstrike"@.len() && "vertAlign"@.len() != "u"@.len());
    assert("bCs"@.len() != "b"@.len() && "bCs"@.len() != "i"@.len());
    assert("iCs"@.len() != "b"@.len() && "iCs"@.len() != "i"@.len());
    assert("superscript"@.len() != "subscript"@.len());
    lemma_set_kind_contains(a.kinds, TextStyleKind::Underline, crate::properties::spec_parse_underline_on(val_of(tag)));
    let v = crate::properties::spec_parse_vert_align(val_of(tag));
    let kept = a.kinds.filter(|k: TextStyleKind| k != TextStyleKind::Subscript && k != TextStyleKind::Superscript);
    let p = |k: TextStyleKind| k != TextStyleKind::Subscript && k != TextStyleKind::Superscript;
    a.kinds.filter_lemma(p);
    assert forall|k: TextStyleKind| #[trigger] kept.contains(k) implies p(k) && a.kinds.contains(k) by {
        let j = choose|j: int| 0 <= j < kept.len() && kept[j] == k;
        assert(p(kept[j]));
        lemma_filter_kept_was_there(a.kinds, p, k);
    }
    assert forall|k: TextStyleKind| p(k) && a.kinds.contains(k) implies #[trigger] kept.contains(k) by {
        let i = choose|i: int| 0 <= i < a.kinds.len() && a.kinds[i] == k;
        assert(p(a.kinds[i]));
    }
    let r = crate::document::set_vert_align(a.kinds, v);
    assert forall|k: TextStyleKind| #[trigger] r.contains(k) == (kept.contains(k)
        || (v is Superscript && k == TextStyleKind::Superscript) || (v is Subscript && k == TextStyleKind::Subscript)) by {
        if v is Baseline {
        } else {
            let x = if v is Superscript { TextStyleKind::Superscript } else { TextStyleKind::Subscript };
            assert(r == kept.push(x));
            if r.contains(k) {
                let j = choose|j: int| 0 <= j < r.len() && r[j] == k;
                if j < kept.len() {
                    assert(kept[j] == k);
                }
            }
            if kept.contains(k) {
                let j = choose|j: int| 0 <= j < kept.len() && kept[j] == k;
                assert(r[j] == k);
            }
            assert(r[kept.len() as int] == x);
        }
    }
}

/// A style named `Title` is a level-one heading whatever its kind; the
/// code styles `Source Code`, `SourceCode` and `Codeblock` mark code only as
/// paragraph styles, and `Verbatim Char` only as a character style.
pub proof fn law_title_and_code_names(kind: StyleType)
    ensures
        spec_classify_name("Title"@, kind) == Some(StyleClassification::Heading { level: 1 }),
        spec_classify_name("Source Code"@, kind) == (if kind == StyleType::Paragraph {
            Some(StyleClassification::Code) } else { None::<StyleClassification> }),
        spec_classify_name("SourceCode"@, kind) == (if kind == StyleType::Paragraph {
            Some(StyleClassification::Code) } else { None::<StyleClassification> }),
        spec_classify_name("Codeblock"@, kind) == (if kind == StyleType::Paragraph {
            Some(StyleClassification::Code) } else { None::<StyleClassification> }),
        spec_classify_name("Verbatim Char"@, kind) == (if kind == StyleType::Character {
            Some(StyleClassification::Code) } else { None::<StyleClassification> }),
{
    reveal_strlit("Title");
    reveal_strlit("Quote");
    reveal_strlit("Intense Quote");
    reveal_strlit("Block Text");
    reveal_strlit("Block Quote");
    reveal_strlit("Block Quotation");
    reveal_strlit("Source Code");
    reveal_strlit("SourceCode");
    reveal_strlit("Codeblock");
    reveal_strlit("Verbatim Char");
    reveal_strlit("heading ");
    let names = seq!["Source Code"@, "SourceCode"@, "Codeblock"@, "Verbatim Char"@];
    assert(names[0][0] == 'S' && names[1][0] == 'S' && names[2][0] == 'C' && names[3][0] == 'V');
    assert("Title"@[0] == 'T' && "Quote"@[0] == 'Q' && "Intense Quote"@[0] == 'I' && "Block Text"@[0] == 'B'
        && "Block Quote"@[0] == 'B' && "Block Quotation"@[0] == 'B' && "heading "@[0] == 'h');
    assert("Source Code"@.len() != "SourceCode"@.len() && "Source Code"@.len() != "Codeblock"@.len()
        && "Source Code"@.len() != "Verbatim Char"@.len());
    assert("SourceCode"@.len() != "Codeblock"@.len() && "SourceCode"@.len() != "Verbatim Char"@.len());
    assert("Codeblock"@.len() != "Verbatim Char"@.len());
    assert("Source Code"@.subrange(0, 8)[0] != "heading "@[0]);
    assert("SourceCode"@.subrange(0, 8)[0] != "heading "@[0]);
    assert("Codeblock"@.subrange(0, 8)[0] != "heading "@[0]);
    assert("Verbatim Char"@.subrange(0, 8)[0] != "heading "@[0]);
    assert("Source Code"@.subrange(0, 8) != "heading "@);
    assert("SourceCode"@.subrange(0, 8) != "heading "@);
    assert("Codeblock"@.subrange(0, 8) != "heading "@);
    assert("Verbatim Char"@.subrange(0, 8) != "heading "@);
}

} // verus!

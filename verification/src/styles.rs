//! `word/styles.xml`: the style table, and the walks along `basedOn` chains
//! that classify a style and find its numbering.

use vstd::prelude::*;

use crate::events::{is_parse_error, parse_error, DocxError};
use crate::text::{chars_of, concat_str, str_is_empty, parse_unsigned, spec_parse_u32, spec_parse_unsigned, parse_u32, str_eq, IntParseFailure};
use crate::xml::{xml_tokens, checked_attr, local_is, local_name, spec_checked_attr, tokenize_xml, well_terminated, AttrFault, XmlTag, XmlToken};

verus! {

/// The kind of a style definition (`w:type`).
#[derive(Debug, Clone, Copy, PartialEq, Eq, Structural)]
pub enum StyleType {
    Paragraph,
    Character,
    Table,
    Numbering,
}

/// The style type a `w:type` value names.
pub open spec fn spec_style_type(s: Seq<char>) -> Option<StyleType> {
    if s == "paragraph"@ {
        Some(StyleType::Paragraph)
    } else if s == "character"@ {
        Some(StyleType::Character)
    } else if s == "table"@ {
        Some(StyleType::Table)
    } else if s == "numbering"@ {
        Some(StyleType::Numbering)
    } else {
        None
    }
}

impl StyleType {
    /// The style type named by a `w:type` value.
    pub fn from_attr(s: &str) -> (r: Option<StyleType>)
        ensures
            r == spec_style_type(s@),
    {
        if str_eq(s, "paragraph") {
            Some(StyleType::Paragraph)
        } else if str_eq(s, "character") {
            Some(StyleType::Character)
        } else if str_eq(s, "table") {
            Some(StyleType::Table)
        } else if str_eq(s, "numbering") {
            Some(StyleType::Numbering)
        } else {
            None
        }
    }
}

/// One style definition.
#[derive(Debug, Clone, PartialEq, Eq)]
pub struct Style {
    id: String,
    kind: StyleType,
    name: Option<String>,
    based_on: Option<String>,
    /// Paragraph numbering properties from `<w:pPr><w:numPr>`, as
    /// `(num_id, ilvl)`. `Some((0, 0))` is Word's explicit numbering clear
    /// signal for `w:numId="0"`; its level is always zero.
    pub num_pr: Option<(u32, u32)>,
}

/// The plain content of a [`Style`].
pub struct StyleView {
    pub id: Seq<char>,
    pub kind: StyleType,
    pub name: Option<Seq<char>>,
    pub based_on: Option<Seq<char>>,
    pub num_pr: Option<(u32, u32)>,
}

/// The view of a string option.
pub open spec fn opt_view(o: Option<String>) -> Option<Seq<char>> {
    match o {
        Some(s) => Some(s@),
        None => None,
    }
}

impl View for Style {
    type V = StyleView;

    closed spec fn view(&self) -> StyleView {
        StyleView {
            id: self.id@,
            kind: self.kind,
            name: opt_view(self.name),
            based_on: opt_view(self.based_on),
            num_pr: self.num_pr,
        }
    }
}

fn clone_opt(o: &Option<String>) -> (r: Option<String>)
    ensures
        opt_view(r) == opt_view(*o),
{
    match o {
        Some(s) => Some(s.clone()),
        None => None,
    }
}

impl Style {
    /// A style with the given fields.
    pub fn new(id: String, kind: StyleType, name: Option<String>, based_on: Option<String>, num_pr: Option<(u32, u32)>) -> (s: Style)
        ensures
            s@ == (StyleView { id: id@, kind, name: opt_view(name), based_on: opt_view(based_on), num_pr }),
    {
        Style { id, kind, name, based_on, num_pr }
    }

    pub fn id(&self) -> (r: &str)
        ensures
            r@ == self@.id,
    {
        self.id.as_str()
    }

    pub fn kind(&self) -> (r: StyleType)
        ensures
            r == self@.kind,
    {
        self.kind
    }

    pub fn name(&self) -> (r: Option<String>)
        ensures
            opt_view(r) == self@.name,
    {
        clone_opt(&self.name)
    }

    pub fn based_on(&self) -> (r: Option<String>)
        ensures
            opt_view(r) == self@.based_on,
    {
        clone_opt(&self.based_on)
    }
}

/// The styles of a document, in document order.
#[derive(Debug, Clone, Default, PartialEq, Eq)]
pub struct StyleList {
    styles: Vec<Style>,
}

impl View for StyleList {
    type V = Seq<StyleView>;

    closed spec fn view(&self) -> Seq<StyleView> {
        self.styles@.map_values(|s: Style| s@)
    }
}

/// How a style is rendered.
#[derive(Debug, Clone, Copy, PartialEq, Eq, Structural)]
pub enum StyleClassification {
    Heading { level: u8 },
    BlockQuote,
    Code,
}

/// Whether a style name marks a block quote.
pub open spec fn is_block_quote_name(n: Seq<char>) -> bool {
    n == "Quote"@ || n == "Block Text"@ || n == "Block Quote"@ || n == "Block Quotation"@ || n == "Intense Quote"@
}

/// Whether a style name marks a code paragraph.
pub open spec fn is_code_paragraph_name(n: Seq<char>) -> bool {
    n == "Source Code"@ || n == "SourceCode"@ || n == "Codeblock"@
}

/// A heading level from the text after `heading `: the decimal value,
/// 255 when it is too large for a `u8`, none when it is not a number or 0.
pub open spec fn spec_heading_level(rest: Seq<char>) -> Option<u8> {
    match spec_parse_unsigned(rest, 10, 255) {
        Ok(l) => if l >= 1 { Some(l as u8) } else { None },
        Err(IntParseFailure::PosOverflow) => Some(255u8),
        Err(_) => None,
    }
}

/// What a style's name says about how it is rendered.
pub open spec fn spec_classify_name(name: Seq<char>, kind: StyleType) -> Option<StyleClassification> {
    let prefix = "heading "@;
    if name == "Title"@ {
        Some(StyleClassification::Heading { level: 1 })
    } else if is_block_quote_name(name) {
        Some(StyleClassification::BlockQuote)
    } else if is_code_paragraph_name(name) && kind == StyleType::Paragraph {
        Some(StyleClassification::Code)
    } else if name == "Verbatim Char"@ && kind == StyleType::Character {
        Some(StyleClassification::Code)
    } else if name.len() >= prefix.len() && name.subrange(0, prefix.len() as int) == prefix {
        match spec_heading_level(name.subrange(prefix.len() as int, name.len() as int)) {
            Some(l) => Some(StyleClassification::Heading { level: l }),
            None => None,
        }
    } else {
        None
    }
}

/// The characters of `v` after `prefix`, when `v` starts with it.
fn strip_prefix(v: &Vec<char>, prefix: &str) -> (r: Option<Vec<char>>)
    ensures
        match r {
            Some(rest) => v@.len() >= prefix@.len() && v@.subrange(0, prefix@.len() as int) == prefix@
                && rest@ == v@.subrange(prefix@.len() as int, v@.len() as int),
            None => !(v@.len() >= prefix@.len() && v@.subrange(0, prefix@.len() as int) == prefix@),
        },
{
    let p = chars_of(prefix);
    if v.len() < p.len() {
        return None;
    }
    let mut i: usize = 0;
    while i < p.len()
        invariant
            p@ == prefix@,
            p@.len() <= v@.len(),
            i <= p@.len(),
            forall|j: int| 0 <= j < i ==> v@[j] == p@[j],
        decreases p@.len() - i,
    {
        if v[i] != p[i] {
            assert(v@.subrange(0, p@.len() as int)[i as int] != p@[i as int]);
            return None;
        }
        i = i + 1;
    }
    assert(v@.subrange(0, p@.len() as int) =~= p@);
    let mut rest: Vec<char> = Vec::new();
    let mut k: usize = p.len();
    while k < v.len()
        invariant
            p@.len() <= k <= v@.len(),
            rest@ == v@.subrange(p@.len() as int, k as int),
        decreases v@.len() - k,
    {
        rest.push(v[k]);
        k = k + 1;
        assert(rest@ =~= v@.subrange(p@.len() as int, k as int));
    }
    Some(rest)
}

/// Classifies a style by its name: headings (`Title`, `heading N`), block
/// quotes, and code blocks (paragraph styles) or code runs (`Verbatim Char`,
/// character styles).
pub fn classify_name(name: &str, kind: StyleType) -> (r: Option<StyleClassification>)
    ensures
        r == spec_classify_name(name@, kind),
{
    if str_eq(name, "Title") {
        return Some(StyleClassification::Heading { level: 1 });
    }
    if str_eq(name, "Quote") || str_eq(name, "Block Text") || str_eq(name, "Block Quote")
        || str_eq(name, "Block Quotation") || str_eq(name, "Intense Quote") {
        return Some(StyleClassification::BlockQuote);
    }
    if (str_eq(name, "Source Code") || str_eq(name, "SourceCode") || str_eq(name, "Codeblock"))
        && kind == StyleType::Paragraph {
        return Some(StyleClassification::Code);
    }
    if str_eq(name, "Verbatim Char") && kind == StyleType::Character {
        return Some(StyleClassification::Code);
    }
    let v = chars_of(name);
    match strip_prefix(&v, "heading ") {
        None => None,
        Some(rest) => {
            let level: u8 = match parse_unsigned(rest.as_slice(), 10, 255) {
                Ok(l) => l as u8,
                Err(IntParseFailure::PosOverflow) => 255u8,
                Err(_) => {
                    return None;
                },
            };
            if level >= 1 {
                Some(StyleClassification::Heading { level })
            } else {
                None
            }
        },
    }
}

/// Index of the first style with the given id.
pub open spec fn first_style(styles: Seq<StyleView>, id: Seq<char>) -> Option<int>
    decreases styles.len(),
{
    if styles.len() == 0 {
        None
    } else if styles[0].id == id {
        Some(0)
    } else {
        match first_style(styles.drop_first(), id) {
            Some(i) => Some(i + 1),
            None => None,
        }
    }
}

/// The first style with an id has that id, and no earlier one has it.
pub proof fn lemma_first_style(styles: Seq<StyleView>, id: Seq<char>)
    ensures
        match first_style(styles, id) {
            Some(i) => 0 <= i < styles.len() && styles[i].id == id
                && forall|j: int| 0 <= j < i ==> styles[j].id != id,
            None => forall|j: int| 0 <= j < styles.len() ==> styles[j].id != id,
        },
    decreases styles.len(),
{
    if styles.len() > 0 {
        lemma_first_style(styles.drop_first(), id);
        if styles[0].id != id {
            assert forall|j: int| 0 < j < styles.len() implies styles[j] == styles.drop_first()[j - 1] by {}
        }
    }
}

/// The ids of a style sequence.
pub open spec fn style_ids(styles: Seq<StyleView>) -> Seq<Seq<char>> {
    styles.map_values(|s: StyleView| s.id)
}

/// The walk of [`StyleList::classify`] from style `id`, with the ids already
/// visited: the first name on the `basedOn` chain that classifies, judged by
/// the starting style's kind; none at a missing style, the chain's end, or a
/// repeated id.
pub open spec fn classify_walk(styles: Seq<StyleView>, id: Seq<char>, kind: StyleType, visited: Seq<Seq<char>>) -> Option<StyleClassification>
    decreases styles.len() + 1 - visited.len(),
{
    if visited.len() > styles.len() {
        None
    } else {
        match first_style(styles, id) {
            None => None,
            Some(i) => if visited.contains(id) {
                None
            } else {
                let found = match styles[i].name {
                    Some(n) => spec_classify_name(n, kind),
                    None => None,
                };
                if found is Some {
                    found
                } else {
                    match styles[i].based_on {
                        None => None,
                        Some(b) => classify_walk(styles, b, kind, visited.push(id)),
                    }
                }
            },
        }
    }
}

/// What [`StyleList::classify`] returns.
pub open spec fn spec_classify(styles: Seq<StyleView>, id: Seq<char>) -> Option<StyleClassification> {
    match first_style(styles, id) {
        None => None,
        Some(i) => classify_walk(styles, id, styles[i].kind, Seq::empty()),
    }
}

/// The walk of [`StyleList::resolve_num_pr`] from style `id`: the first
/// `numPr` on the `basedOn` chain, `(0, 0)` for a `numId` of 0; none at a
/// missing style, the chain's end, or a repeated id.
pub open spec fn num_pr_walk(styles: Seq<StyleView>, id: Seq<char>, visited: Seq<Seq<char>>) -> Option<(u32, u32)>
    decreases styles.len() + 1 - visited.len(),
{
    if visited.len() > styles.len() {
        None
    } else {
        match first_style(styles, id) {
            None => None,
            Some(i) => if visited.contains(id) {
                None
            } else {
                match styles[i].num_pr {
                    Some((n, l)) => if n == 0 { Some((0u32, 0u32)) } else { Some((n, l)) },
                    None => match styles[i].based_on {
                        None => None,
                        Some(b) => num_pr_walk(styles, b, visited.push(id)),
                    },
                }
            },
        }
    }
}

/// A sequence of distinct ids, each naming a style, is no longer than the
/// style sequence.
proof fn lemma_visited_bound(styles: Seq<StyleView>, visited: Seq<Seq<char>>)
    requires
        visited.no_duplicates(),
        forall|j: int| 0 <= j < visited.len() ==> style_ids(styles).contains(#[trigger] visited[j]),
    ensures
        visited.len() <= styles.len(),
{
    let ids = style_ids(styles);
    visited.unique_seq_to_set();
    ids.lemma_cardinality_of_set();
    assert(visited.to_set().subset_of(ids.to_set())) by {
        assert forall|x: Seq<char>| visited.to_set().contains(x) implies ids.to_set().contains(x) by {
            let j = choose|j: int| 0 <= j < visited.len() && visited[j] == x;
            assert(ids.contains(visited[j]));
        }
    }
    vstd::set_lib::lemma_len_subset(visited.to_set(), ids.to_set());
}

fn vec_contains(v: &Vec<String>, s: &str) -> (r: bool)
    ensures
        r == v@.map_values(|x: String| x@).contains(s@),
{
    let ghost vs = v@.map_values(|x: String| x@);
    let mut i: usize = 0;
    while i < v.len()
        invariant
            vs == v@.map_values(|x: String| x@),
            i <= v@.len(),
            forall|j: int| 0 <= j < i ==> vs[j] != s@,
        decreases v@.len() - i,
    {
        if str_eq(v[i].as_str(), s) {
            assert(vs[i as int] == s@);
            return true;
        }
        i = i + 1;
    }
    false
}

impl StyleList {
    proof fn lemma_view(&self)
        ensures
            self@.len() == self.styles@.len(),
            forall|i: int| 0 <= i < self.styles@.len() ==> #[trigger] self@[i] == self.styles@[i]@,
    {
    }

    /// A style list holding `styles`, in order.
    pub fn from_styles(styles: Vec<Style>) -> (r: StyleList)
        ensures
            r@ == styles@.map_values(|s: Style| s@),
    {
        StyleList { styles }
    }

    /// The number of styles.
    pub fn len(&self) -> (n: usize)
        ensures
            n == self@.len(),
    {
        self.styles.len()
    }

    fn find_index(&self, id: &str) -> (r: Option<usize>)
        ensures
            match r {
                Some(i) => first_style(self@, id@) == Some(i as int) && i < self@.len(),
                None => first_style(self@, id@) is None,
            },
    {
        proof { self.lemma_view(); }
        proof { lemma_first_style(self@, id@); }
        let mut i: usize = 0;
        while i < self.styles.len()
            invariant
                i <= self@.len(),
                self@.len() == self.styles@.len(),
                forall|j: int| 0 <= j < i ==> self@[j].id != id@,
                match first_style(self@, id@) {
                    Some(k) => 0 <= k < self@.len() && self@[k].id == id@
                        && forall|j: int| 0 <= j < k ==> self@[j].id != id@,
                    None => forall|j: int| 0 <= j < self@.len() ==> self@[j].id != id@,
                },
            decreases self@.len() - i,
        {
            assert(self@[i as int] == self.styles@[i as int]@);
            if str_eq(self.styles[i].id.as_str(), id) {
                return Some(i);
            }
            i = i + 1;
        }
        None
    }

    /// The first style whose id is `id`.
    pub fn get_by_id(&self, id: &str) -> (r: Option<&Style>)
        ensures
            match first_style(self@, id@) {
                Some(i) => r is Some && r->0@ == self@[i],
                None => r is None,
            },
    {
        proof { self.lemma_view(); }
        match self.find_index(id) {
            Some(i) => Some(&self.styles[i]),
            None => None,
        }
    }

    /// Classifies style `id` by the first name along its `basedOn` chain that
    /// classifies, judged by the kind of `id` itself; none for a missing
    /// style, a chain that ends or cycles without a match.
    pub fn classify(&self, id: &str) -> (r: Option<StyleClassification>)
        ensures
            r == spec_classify(self@, id@),
    {
        proof { self.lemma_view(); }
        let start = match self.find_index(id) {
            Some(i) => i,
            None => {
                return None;
            },
        };
        let kind = self.styles[start].kind;
        assert(self@[start as int] == self.styles@[start as int]@);
        let mut visited: Vec<String> = Vec::new();
        let mut cur: String = id.to_owned();
        let mut idx: usize = start;
        assert(visited@.map_values(|x: String| x@) =~= Seq::<Seq<char>>::empty());
        loop
            invariant
                self@.len() == self.styles@.len(),
                idx < self@.len(),
                first_style(self@, cur@) == Some(idx as int),
                spec_classify(self@, id@) == classify_walk(self@, cur@, kind, visited@.map_values(|x: String| x@)),
                visited@.map_values(|x: String| x@).no_duplicates(),
                forall|j: int| 0 <= j < visited@.len() ==> style_ids(self@).contains(#[trigger] visited@[j]@),
            decreases self@.len() + 1 - visited@.len(),
        {
            let ghost vs = visited@.map_values(|x: String| x@);
            proof {
                lemma_first_style(self@, cur@);
                assert forall|j: int| 0 <= j < vs.len() implies style_ids(self@).contains(#[trigger] vs[j]) by {
                    assert(vs[j] == visited@[j]@);
                }
                lemma_visited_bound(self@, vs);
            }
            if vec_contains(&visited, cur.as_str()) {
                return None;
            }
            let style = &self.styles[idx];
            assert(self@[idx as int] == style@);
            if let Some(n) = &style.name {
                let c = classify_name(n.as_str(), kind);
                if c.is_some() {
                    return c;
                }
            }
            let next = match &style.based_on {
                Some(b) => b.clone(),
                None => {
                    return None;
                },
            };
            let next_idx = match self.find_index(next.as_str()) {
                Some(i) => i,
                None => {
                    proof {
                        assert(vs.push(cur@).len() <= self@.len()) by {
                            assert(style_ids(self@)[idx as int] == cur@);
                            assert forall|j: int| 0 <= j < vs.push(cur@).len() implies style_ids(self@).contains(#[trigger] vs.push(cur@)[j]) by {
                                if j < vs.len() {
                                    assert(vs.push(cur@)[j] == vs[j]);
                                    assert(vs[j] == visited@[j]@);
                                }
                            }
                            lemma_visited_bound(self@, vs.push(cur@));
                        }
                        assert(classify_walk(self@, next@, kind, vs.push(cur@)) is None);
                    }
                    return None;
                },
            };
            proof {
                assert(style_ids(self@)[idx as int] == cur@);
                assert forall|j: int| 0 <= j < vs.push(cur@).len() implies style_ids(self@).contains(#[trigger] vs.push(cur@)[j]) by {
                    if j < vs.len() {
                        assert(vs.push(cur@)[j] == vs[j]);
                        assert(vs[j] == visited@[j]@);
                    }
                }
                lemma_visited_bound(self@, vs.push(cur@));
            }
            let ghost old_cur = cur@;
            visited.push(cur);
            assert(visited@.map_values(|x: String| x@) =~= vs.push(old_cur));
            cur = next;
            idx = next_idx;
        }
    }

    /// Walks the `pStyle` → `basedOn` chain to find the effective `numPr`:
    /// that of the first style in the chain that has one, or `(0, 0)` when
    /// its `numId` is 0 (Word's explicit numbering clear signal).
    pub fn resolve_num_pr(&self, style_id: &str) -> (r: Option<(u32, u32)>)
        ensures
            r == num_pr_walk(self@, style_id@, Seq::empty()),
    {
        proof { self.lemma_view(); }
        let start = match self.find_index(style_id) {
            Some(i) => i,
            None => {
                return None;
            },
        };
        let mut visited: Vec<String> = Vec::new();
        let mut cur: String = style_id.to_owned();
        let mut idx: usize = start;
        assert(visited@.map_values(|x: String| x@) =~= Seq::<Seq<char>>::empty());
        loop
            invariant
                self@.len() == self.styles@.len(),
                idx < self@.len(),
                first_style(self@, cur@) == Some(idx as int),
                num_pr_walk(self@, style_id@, Seq::empty()) == num_pr_walk(self@, cur@, visited@.map_values(|x: String| x@)),
                visited@.map_values(|x: String| x@).no_duplicates(),
                forall|j: int| 0 <= j < visited@.len() ==> style_ids(self@).contains(#[trigger] visited@[j]@),
            decreases self@.len() + 1 - visited@.len(),
        {
            let ghost vs = visited@.map_values(|x: String| x@);
            proof {
                lemma_first_style(self@, cur@);
                assert forall|j: int| 0 <= j < vs.len() implies style_ids(self@).contains(#[trigger] vs[j]) by {
                    assert(vs[j] == visited@[j]@);
                }
                lemma_visited_bound(self@, vs);
            }
            if vec_contains(&visited, cur.as_str()) {
                return None;
            }
            let style = &self.styles[idx];
            assert(self@[idx as int] == style@);
            if let Some((num_id, ilvl)) = style.num_pr {
                return if num_id == 0 { Some((0, 0)) } else { Some((num_id, ilvl)) };
            }
            let next = match &style.based_on {
                Some(b) => b.clone(),
                None => {
                    return None;
                },
            };
            proof {
                assert(style_ids(self@)[idx as int] == cur@);
                assert forall|j: int| 0 <= j < vs.push(cur@).len() implies style_ids(self@).contains(#[trigger] vs.push(cur@)[j]) by {
                    if j < vs.len() {
                        assert(vs.push(cur@)[j] == vs[j]);
                        assert(vs[j] == visited@[j]@);
                    }
                }
                lemma_visited_bound(self@, vs.push(cur@));
            }
            let next_idx = match self.find_index(next.as_str()) {
                Some(i) => i,
                None => {
                    assert(num_pr_walk(self@, next@, vs.push(cur@)) is None);
                    return None;
                },
            };
            let ghost old_cur = cur@;
            visited.push(cur);
            assert(visited@.map_values(|x: String| x@) =~= vs.push(old_cur));
            cur = next;
            idx = next_idx;
        }
    }
}


/// Where the styles scan stands.
#[derive(Debug, Clone, Copy, PartialEq, Eq, Structural)]
pub enum StylesPhase {
    /// Between style definitions.
    Top,
    /// Inside a `w:style` being kept.
    InStyle,
    /// Inside its `w:pPr`.
    InPPr,
    /// Inside its `w:pPr/w:numPr`.
    InNumPr,
    /// Skipping an element nested in `w:pPr` or `w:numPr`.
    Drain,
    /// End of input reached.
    Done,
    /// The part is malformed.
    Failed,
}

/// The state of a scan of `styles.xml`.
pub struct StylesScanView {
    pub phase: StylesPhase,
    /// The styles completed so far.
    pub styles: Seq<StyleView>,
    /// The style being read.
    pub draft: StyleView,
    /// The `numPr` found so far in the current `w:pPr`.
    pub ppr: Option<(u32, u32)>,
    /// `numId` and `ilvl` read so far in the current `w:numPr`.
    pub num_id: Option<u32>,
    pub ilvl: Option<u32>,
    /// Open elements while draining, and the phase to return to.
    pub depth: u32,
    pub drain_back: StylesPhase,
    /// The message of a failed scan.
    pub error: Seq<char>,
}

/// The message of a malformed `styles.xml`.
pub open spec fn styles_reader_msg(m: Seq<char>) -> Seq<char> {
    "malformed styles.xml: "@ + m
}

/// The message of a malformed attribute of `styles.xml`.
pub open spec fn styles_attr_msg(e: (bool, Seq<char>)) -> Seq<char> {
    if e.0 {
        "malformed attribute value: "@ + e.1
    } else {
        "malformed attribute: "@ + e.1
    }
}

/// The scan stopped with the error `msg`.
pub open spec fn styles_fail(s: StylesScanView, msg: Seq<char>) -> StylesScanView {
    StylesScanView { phase: StylesPhase::Failed, error: msg, ..s }
}

/// The state of the `styles.xml` scan before any token.
pub open spec fn styles_initial() -> StylesScanView {
    StylesScanView {
        phase: StylesPhase::Top,
        styles: Seq::empty(),
        draft: StyleView { id: Seq::empty(), kind: StyleType::Paragraph, name: None, based_on: None, num_pr: None },
        ppr: None,
        num_id: None,
        ilvl: None,
        depth: 0,
        drain_back: StylesPhase::Top,
        error: Seq::empty(),
    }
}

/// A `w:style` start tag at the top: kept when its `w:type` is known and its
/// `w:styleId` is not empty; both attributes are read first.
pub open spec fn styles_on_style_start(s: StylesScanView, tag: XmlTag) -> StylesScanView {
    match spec_checked_attr(tag, "type"@) {
        Err(e) => styles_fail(s, styles_attr_msg(e)),
        Ok(ty) => match spec_checked_attr(tag, "styleId"@) {
            Err(e) => styles_fail(s, styles_attr_msg(e)),
            Ok(id) => {
                let kind = match ty {
                    Some(t) => spec_style_type(t),
                    None => None,
                };
                if kind is Some && id is Some && id->0.len() > 0 {
                    StylesScanView {
                        phase: StylesPhase::InStyle,
                        draft: StyleView { id: id->0, kind: kind->0, name: None, based_on: None, num_pr: None },
                        ..s
                    }
                } else {
                    s
                }
            },
        },
    }
}

/// A non-empty `w:val` of `tag`, or the failure of reading it.
pub open spec fn spec_nonempty_val(tag: XmlTag) -> Result<Option<Seq<char>>, (bool, Seq<char>)> {
    match spec_checked_attr(tag, "val"@) {
        Err(e) => Err(e),
        Ok(Some(v)) => if v.len() > 0 { Ok(Some(v)) } else { Ok(None) },
        Ok(None) => Ok(None),
    }
}

/// A `w:val` parsed as `u32`, or the failure of reading it.
pub open spec fn spec_u32_val(tag: XmlTag) -> Result<Option<u32>, (bool, Seq<char>)> {
    match spec_checked_attr(tag, "val"@) {
        Err(e) => Err(e),
        Ok(Some(v)) => Ok(spec_parse_u32(v)),
        Ok(None) => Ok(None),
    }
}

/// The scan after a token inside a `w:style`.
pub open spec fn styles_in_style(s: StylesScanView, t: XmlToken) -> StylesScanView {
    match t {
        XmlToken::Empty(tag) => if local_name(tag.name@) == "name"@ {
            match spec_nonempty_val(tag) {
                Err(e) => styles_fail(s, styles_attr_msg(e)),
                Ok(Some(v)) => StylesScanView { draft: StyleView { name: Some(v), ..s.draft }, ..s },
                Ok(None) => s,
            }
        } else if local_name(tag.name@) == "basedOn"@ {
            match spec_nonempty_val(tag) {
                Err(e) => styles_fail(s, styles_attr_msg(e)),
                Ok(Some(v)) => StylesScanView { draft: StyleView { based_on: Some(v), ..s.draft }, ..s },
                Ok(None) => s,
            }
        } else {
            s
        },
        XmlToken::Start(tag) => if local_name(tag.name@) == "pPr"@ {
            StylesScanView { phase: StylesPhase::InPPr, ppr: None, ..s }
        } else {
            s
        },
        XmlToken::End(n) => if local_name(n@) == "style"@ {
            StylesScanView { phase: StylesPhase::Top, styles: s.styles.push(s.draft), ..s }
        } else {
            s
        },
        XmlToken::Eof => styles_fail(s, "unexpected EOF inside <w:style>"@),
        XmlToken::Malformed(m) => styles_fail(s, styles_reader_msg(m@)),
        _ => s,
    }
}

/// The scan after a token inside a style's `w:pPr`.
pub open spec fn styles_in_ppr(s: StylesScanView, t: XmlToken) -> StylesScanView {
    match t {
        XmlToken::Start(tag) => if local_name(tag.name@) == "numPr"@ {
            StylesScanView { phase: StylesPhase::InNumPr, num_id: None, ilvl: None, ..s }
        } else {
            StylesScanView { phase: StylesPhase::Drain, depth: 1, drain_back: StylesPhase::InPPr, ..s }
        },
        XmlToken::End(n) => if local_name(n@) == "pPr"@ {
            let np = if s.ppr is Some { s.ppr } else { s.draft.num_pr };
            StylesScanView { phase: StylesPhase::InStyle, draft: StyleView { num_pr: np, ..s.draft }, ..s }
        } else {
            s
        },
        XmlToken::Eof => styles_fail(s, "unexpected EOF inside <w:pPr>"@),
        XmlToken::Malformed(m) => styles_fail(s, styles_reader_msg(m@)),
        _ => s,
    }
}

/// The `numPr` a finished `w:numPr` yields: none without a `numId`,
/// `(0, 0)` for `numId` 0, else `(numId, ilvl or 0)`.
pub open spec fn spec_num_pr_value(num_id: Option<u32>, ilvl: Option<u32>) -> Option<(u32, u32)> {
    match num_id {
        None => None,
        Some(id) => if id == 0 {
            Some((0u32, 0u32))
        } else {
            Some((id, match ilvl { Some(l) => l, None => 0u32 }))
        },
    }
}

/// The scan after a token inside a style's `w:numPr`.
pub open spec fn styles_in_numpr(s: StylesScanView, t: XmlToken) -> StylesScanView {
    match t {
        XmlToken::Empty(tag) => if local_name(tag.name@) == "numId"@ {
            match spec_u32_val(tag) {
                Err(e) => styles_fail(s, styles_attr_msg(e)),
                Ok(Some(n)) => StylesScanView { num_id: Some(n), ..s },
                Ok(None) => s,
            }
        } else if local_name(tag.name@) == "ilvl"@ {
            match spec_u32_val(tag) {
                Err(e) => styles_fail(s, styles_attr_msg(e)),
                Ok(Some(n)) => StylesScanView { ilvl: Some(n), ..s },
                Ok(None) => s,
            }
        } else {
            s
        },
        XmlToken::End(n) => if local_name(n@) == "numPr"@ {
            let v = spec_num_pr_value(s.num_id, s.ilvl);
            StylesScanView { phase: StylesPhase::InPPr, ppr: if v is Some { v } else { s.ppr }, ..s }
        } else {
            s
        },
        XmlToken::Start(_) => StylesScanView { phase: StylesPhase::Drain, depth: 1, drain_back: StylesPhase::InNumPr, ..s },
        XmlToken::Eof => styles_fail(s, "unexpected EOF inside <w:numPr>"@),
        XmlToken::Malformed(m) => styles_fail(s, styles_reader_msg(m@)),
        _ => s,
    }
}

/// The scan after a token inside an element being skipped.
pub open spec fn styles_in_drain(s: StylesScanView, t: XmlToken) -> StylesScanView {
    match t {
        XmlToken::Start(_) => StylesScanView { depth: if s.depth == u32::MAX { s.depth } else { (s.depth + 1) as u32 }, ..s },
        XmlToken::End(_) => if s.depth <= 1 {
            StylesScanView { phase: s.drain_back, depth: 0, ..s }
        } else {
            StylesScanView { depth: (s.depth - 1) as u32, ..s }
        },
        XmlToken::Eof => styles_fail(s, "unexpected EOF inside XML element"@),
        XmlToken::Malformed(m) => styles_fail(s, styles_reader_msg(m@)),
        _ => s,
    }
}

/// One token of `styles.xml`.
pub open spec fn styles_step(s: StylesScanView, t: XmlToken) -> StylesScanView {
    match s.phase {
        StylesPhase::Top => match t {
            XmlToken::Start(tag) => if local_name(tag.name@) == "style"@ { styles_on_style_start(s, tag) } else { s },
            XmlToken::Eof => StylesScanView { phase: StylesPhase::Done, ..s },
            XmlToken::Malformed(m) => styles_fail(s, styles_reader_msg(m@)),
            _ => s,
        },
        StylesPhase::InStyle => styles_in_style(s, t),
        StylesPhase::InPPr => styles_in_ppr(s, t),
        StylesPhase::InNumPr => styles_in_numpr(s, t),
        StylesPhase::Drain => styles_in_drain(s, t),
        StylesPhase::Done | StylesPhase::Failed => s,
    }
}

/// The scan state after the tokens `toks`.
pub open spec fn styles_run(toks: Seq<XmlToken>) -> StylesScanView
    decreases toks.len(),
{
    if toks.len() == 0 {
        styles_initial()
    } else {
        styles_step(styles_run(toks.drop_last()), toks.last())
    }
}

/// What parsing `styles.xml` from its tokens gives: the styles, in document
/// order, or the message of the first failure.
pub open spec fn spec_parse_styles(toks: Seq<XmlToken>) -> Result<Seq<StyleView>, Seq<char>> {
    let f = styles_run(toks);
    if f.phase == StylesPhase::Failed {
        Err(f.error)
    } else {
        Ok(f.styles)
    }
}

struct StylesScan {
    phase: StylesPhase,
    styles: Vec<Style>,
    draft: Style,
    ppr: Option<(u32, u32)>,
    num_id: Option<u32>,
    ilvl: Option<u32>,
    depth: u32,
    drain_back: StylesPhase,
    error: String,
}

impl View for StylesScan {
    type V = StylesScanView;

    closed spec fn view(&self) -> StylesScanView {
        StylesScanView {
            phase: self.phase,
            styles: self.styles@.map_values(|s: Style| s@),
            draft: self.draft@,
            ppr: self.ppr,
            num_id: self.num_id,
            ilvl: self.ilvl,
            depth: self.depth,
            drain_back: self.drain_back,
            error: self.error@,
        }
    }
}

fn attr_fault_message(f: AttrFault) -> (m: String)
    ensures
        match f {
            AttrFault::Syntax(x) => m@ == styles_attr_msg((false, x@)),
            AttrFault::Value(x) => m@ == styles_attr_msg((true, x@)),
        },
{
    match f {
        AttrFault::Syntax(x) => concat_str("malformed attribute: ", x.as_str()),
        AttrFault::Value(x) => concat_str("malformed attribute value: ", x.as_str()),
    }
}

/// The non-empty `w:val` of a tag.
fn nonempty_val(tag: &XmlTag) -> (r: Result<Option<String>, AttrFault>)
    ensures
        match spec_nonempty_val(*tag) {
            Ok(None) => r matches Ok(None),
            Ok(Some(v)) => r matches Ok(Some(x)) && x@ == v,
            Err((is_value, m)) => r matches Err(f) && (if is_value {
                f matches AttrFault::Value(x) && x@ == m
            } else {
                f matches AttrFault::Syntax(x) && x@ == m
            }),
        },
{
    match checked_attr(tag, "val") {
        Ok(Some(v)) => if !str_is_empty(v.as_str()) { Ok(Some(v)) } else { Ok(None) },
        Ok(None) => Ok(None),
        Err(f) => Err(f),
    }
}

/// The `w:val` of a tag parsed as `u32`.
fn u32_val(tag: &XmlTag) -> (r: Result<Option<u32>, AttrFault>)
    ensures
        match spec_u32_val(*tag) {
            Ok(v) => r == Ok::<Option<u32>, AttrFault>(v),
            Err((is_value, m)) => r matches Err(f) && (if is_value {
                f matches AttrFault::Value(x) && x@ == m
            } else {
                f matches AttrFault::Syntax(x) && x@ == m
            }),
        },
{
    match checked_attr(tag, "val") {
        Ok(Some(v)) => Ok(parse_u32(v.as_str())),
        Ok(None) => Ok(None),
        Err(f) => Err(f),
    }
}

impl StylesScan {
    fn fail(&mut self, msg: String)
        ensures
            final(self)@ == styles_fail(old(self)@, msg@),
    {
        self.phase = StylesPhase::Failed;
        self.error = msg;
    }

    fn fail_attr(&mut self, f: AttrFault)
        ensures
            match f {
                AttrFault::Syntax(x) => final(self)@ == styles_fail(old(self)@, styles_attr_msg((false, x@))),
                AttrFault::Value(x) => final(self)@ == styles_fail(old(self)@, styles_attr_msg((true, x@))),
            },
    {
        let m = attr_fault_message(f);
        self.fail(m);
    }

    fn fail_reader(&mut self, m: &String)
        ensures
            final(self)@ == styles_fail(old(self)@, styles_reader_msg(m@)),
    {
        self.fail(concat_str("malformed styles.xml: ", m.as_str()));
    }

    fn on_style_start(&mut self, tag: &XmlTag)
        ensures
            final(self)@ == styles_on_style_start(old(self)@, *tag),
    {
        let ty = match checked_attr(tag, "type") {
            Err(f) => {
                self.fail_attr(f);
                return;
            },
            Ok(t) => t,
        };
        let id = match checked_attr(tag, "styleId") {
            Err(f) => {
                self.fail_attr(f);
                return;
            },
            Ok(i) => i,
        };
        let kind = match &ty {
            Some(t) => StyleType::from_attr(t.as_str()),
            None => None,
        };
        match (kind, id) {
            (Some(k), Some(i)) => {
                if !str_is_empty(i.as_str()) {
                    self.phase = StylesPhase::InStyle;
                    self.draft = Style { id: i, kind: k, name: None, based_on: None, num_pr: None };
                }
            },
            _ => {},
        }
    }

    fn in_style(&mut self, t: &XmlToken)
        requires
            old(self)@.phase == StylesPhase::InStyle,
        ensures
            final(self)@ == styles_in_style(old(self)@, *t),
    {
        match t {
            XmlToken::Empty(tag) => {
                if local_is(tag.name.as_str(), "name") {
                    match nonempty_val(tag) {
                        Err(f) => self.fail_attr(f),
                        Ok(Some(v)) => self.draft.name = Some(v),
                        Ok(None) => {},
                    }
                } else if local_is(tag.name.as_str(), "basedOn") {
                    match nonempty_val(tag) {
                        Err(f) => self.fail_attr(f),
                        Ok(Some(v)) => self.draft.based_on = Some(v),
                        Ok(None) => {},
                    }
                }
            },
            XmlToken::Start(tag) => {
                if local_is(tag.name.as_str(), "pPr") {
                    self.phase = StylesPhase::InPPr;
                    self.ppr = None;
                }
            },
            XmlToken::End(n) => {
                if local_is(n.as_str(), "style") {
                    let d = Style {
                        id: self.draft.id.clone(),
                        kind: self.draft.kind,
                        name: clone_opt(&self.draft.name),
                        based_on: clone_opt(&self.draft.based_on),
                        num_pr: self.draft.num_pr,
                    };
                    let ghost before = self.styles@;
                    self.styles.push(d);
                    assert(self.styles@.map_values(|s: Style| s@) =~= before.map_values(|s: Style| s@).push(self.draft@));
                    self.phase = StylesPhase::Top;
                }
            },
            XmlToken::Eof => self.fail(String::from_str("unexpected EOF inside <w:style>")),
            XmlToken::Malformed(m) => self.fail_reader(m),
            _ => {},
        }
    }

    fn in_ppr(&mut self, t: &XmlToken)
        requires
            old(self)@.phase == StylesPhase::InPPr,
        ensures
            final(self)@ == styles_in_ppr(old(self)@, *t),
    {
        match t {
            XmlToken::Start(tag) => {
                if local_is(tag.name.as_str(), "numPr") {
                    self.phase = StylesPhase::InNumPr;
                    self.num_id = None;
                    self.ilvl = None;
                } else {
                    self.phase = StylesPhase::Drain;
                    self.depth = 1;
                    self.drain_back = StylesPhase::InPPr;
                }
            },
            XmlToken::End(n) => {
                if local_is(n.as_str(), "pPr") {
                    if self.ppr.is_some() {
                        self.draft.num_pr = self.ppr;
                    }
                    self.phase = StylesPhase::InStyle;
                }
            },
            XmlToken::Eof => self.fail(String::from_str("unexpected EOF inside <w:pPr>")),
            XmlToken::Malformed(m) => self.fail_reader(m),
            _ => {},
        }
    }

    fn in_numpr(&mut self, t: &XmlToken)
        requires
            old(self)@.phase == StylesPhase::InNumPr,
        ensures
            final(self)@ == styles_in_numpr(old(self)@, *t),
    {
        match t {
            XmlToken::Empty(tag) => {
                if local_is(tag.name.as_str(), "numId") {
                    match u32_val(tag) {
                        Err(f) => self.fail_attr(f),
                        Ok(Some(n)) => self.num_id = Some(n),
                        Ok(None) => {},
                    }
                } else if local_is(tag.name.as_str(), "ilvl") {
                    match u32_val(tag) {
                        Err(f) => self.fail_attr(f),
                        Ok(Some(n)) => self.ilvl = Some(n),
                        Ok(None) => {},
                    }
                }
            },
            XmlToken::End(n) => {
                if local_is(n.as_str(), "numPr") {
                    let v = match self.num_id {
                        None => None,
                        Some(id) => if id == 0 {
                            Some((0u32, 0u32))
                        } else {
                            Some((id, match self.ilvl { Some(l) => l, None => 0u32 }))
                        },
                    };
                    if v.is_some() {
                        self.ppr = v;
                    }
                    self.phase = StylesPhase::InPPr;
                }
            },
            XmlToken::Start(_) => {
                self.phase = StylesPhase::Drain;
                self.depth = 1;
                self.drain_back = StylesPhase::InNumPr;
            },
            XmlToken::Eof => self.fail(String::from_str("unexpected EOF inside <w:numPr>")),
            XmlToken::Malformed(m) => self.fail_reader(m),
            _ => {},
        }
    }

    fn in_drain(&mut self, t: &XmlToken)
        requires
            old(self)@.phase == StylesPhase::Drain,
        ensures
            final(self)@ == styles_in_drain(old(self)@, *t),
    {
        match t {
            XmlToken::Start(_) => {
                self.depth = self.depth.saturating_add(1);
            },
            XmlToken::End(_) => {
                if self.depth <= 1 {
                    self.phase = self.drain_back;
                    self.depth = 0;
                } else {
                    self.depth = self.depth - 1;
                }
            },
            XmlToken::Eof => self.fail(String::from_str("unexpected EOF inside XML element")),
            XmlToken::Malformed(m) => self.fail_reader(m),
            _ => {},
        }
    }

    fn step(&mut self, t: &XmlToken)
        ensures
            final(self)@ == styles_step(old(self)@, *t),
    {
        match self.phase {
            StylesPhase::Top => match t {
                XmlToken::Start(tag) => {
                    if local_is(tag.name.as_str(), "style") {
                        self.on_style_start(tag);
                    }
                },
                XmlToken::Eof => self.phase = StylesPhase::Done,
                XmlToken::Malformed(m) => self.fail_reader(m),
                _ => {},
            },
            StylesPhase::InStyle => self.in_style(t),
            StylesPhase::InPPr => self.in_ppr(t),
            StylesPhase::InNumPr => self.in_numpr(t),
            StylesPhase::Drain => self.in_drain(t),
            StylesPhase::Done | StylesPhase::Failed => {},
        }
    }
}

impl StyleList {
    /// Reads the style definitions from the tokens of `styles.xml`: each
    /// `w:style` with a known `w:type` and a non-empty `w:styleId`, with its
    /// name, `basedOn` and paragraph `numPr`.
    pub fn parse_tokens(toks: &Vec<XmlToken>) -> (r: Result<StyleList, DocxError>)
        ensures
            match spec_parse_styles(toks@) {
                Ok(v) => r is Ok && r->Ok_0@ == v,
                Err(m) => r is Err && is_parse_error(r->Err_0, m),
            },
    {
        let mut st = StylesScan {
            phase: StylesPhase::Top,
            styles: Vec::new(),
            draft: Style { id: String::new(), kind: StyleType::Paragraph, name: None, based_on: None, num_pr: None },
            ppr: None,
            num_id: None,
            ilvl: None,
            depth: 0,
            drain_back: StylesPhase::Top,
            error: String::new(),
        };
        assert(st@ == styles_initial()) by {
            assert(st.styles@.map_values(|s: Style| s@) =~= Seq::<StyleView>::empty());
        }
        let mut i: usize = 0;
        while i < toks.len()
            invariant
                i <= toks@.len(),
                st@ == styles_run(toks@.take(i as int)),
            decreases toks@.len() - i,
        {
            assert(toks@.take(i + 1).drop_last() =~= toks@.take(i as int));
            st.step(&toks[i]);
            i = i + 1;
        }
        assert(toks@.take(toks@.len() as int) =~= toks@);
        if st.phase == StylesPhase::Failed {
            Err(parse_error(st.error))
        } else {
            Ok(StyleList { styles: st.styles })
        }
    }

    /// Parses `styles.xml`.
    pub fn parse(bytes: Vec<u8>) -> (r: Result<StyleList, DocxError>)
        ensures
            match spec_parse_styles(xml_tokens(bytes@, true)) {
                Ok(v) => r is Ok && r->Ok_0@ == v,
                Err(m) => r is Err && is_parse_error(r->Err_0, m),
            },
    {
        let toks = tokenize_xml(bytes, true);
        StyleList::parse_tokens(&toks)
    }
}

} // verus!

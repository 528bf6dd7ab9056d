//! `word/numbering.xml`: which list style a paragraph's `numId`/`ilvl` pair
//! stands for.

use vstd::prelude::*;

use crate::assoc::{assoc_get, assoc_map, lemma_assoc_absent, lemma_assoc_first, lemma_assoc_get_in, lemma_assoc_push, lemma_assoc_set};
use crate::events::{is_parse_error, parse_error, DocxError, ListStyleType};
use crate::text::{concat_str, parse_u32, spec_parse_u32, str_eq};
use crate::xml::{xml_tokens, checked_attr, local_is, local_name, spec_checked_attr, spec_u32_attr, tokenize_xml, u32_attr, well_terminated, AttrFault, XmlTag, XmlToken};

verus! {

/// Outcome of a list level definition: either a list with a style, or not a list.
#[derive(Debug, Clone, Copy, PartialEq, Eq)]
pub enum LevelOutcome {
    /// Level is not a list (`numFmt="none"`).
    NotAList,
    /// Level is a list with the given style.
    List(ListStyleType),
}

/// Result of resolving a list item's numId and ilvl to a list style.
#[derive(Debug, Clone, Copy, PartialEq, Eq)]
pub struct ListLookupResult {
    /// Whether this is a list item (true) or a regular paragraph (false).
    pub is_list: bool,
    /// Whether the list is ordered (true) or unordered (false).
    pub is_ordered: bool,
    /// Visual style of the list marker.
    pub style_type: ListStyleType,
}

/// The list style a `w:numFmt` value stands for.
pub open spec fn spec_parse_num_fmt(v: Seq<char>) -> LevelOutcome {
    if v == "none"@ {
        LevelOutcome::NotAList
    } else if v == "bullet"@ {
        LevelOutcome::List(ListStyleType::Disc)
    } else if v == "lowerLetter"@ {
        LevelOutcome::List(ListStyleType::LowerAlpha)
    } else if v == "upperLetter"@ {
        LevelOutcome::List(ListStyleType::UpperAlpha)
    } else if v == "lowerRoman"@ {
        LevelOutcome::List(ListStyleType::LowerRoman)
    } else if v == "upperRoman"@ {
        LevelOutcome::List(ListStyleType::UpperRoman)
    } else {
        LevelOutcome::List(ListStyleType::Decimal)
    }
}

/// Maps a `w:numFmt` value (`ST_NumberFormat`) to a level outcome: `none`
/// is not a list, `bullet` is a disc list, letters and roman numerals keep
/// their case, and every other format is read as decimal.
pub fn parse_num_fmt(v: &str) -> (r: LevelOutcome)
    ensures
        r == spec_parse_num_fmt(v@),
{
    if str_eq(v, "none") {
        LevelOutcome::NotAList
    } else if str_eq(v, "bullet") {
        LevelOutcome::List(ListStyleType::Disc)
    } else if str_eq(v, "lowerLetter") {
        LevelOutcome::List(ListStyleType::LowerAlpha)
    } else if str_eq(v, "upperLetter") {
        LevelOutcome::List(ListStyleType::UpperAlpha)
    } else if str_eq(v, "lowerRoman") {
        LevelOutcome::List(ListStyleType::LowerRoman)
    } else if str_eq(v, "upperRoman") {
        LevelOutcome::List(ListStyleType::UpperRoman)
    } else {
        LevelOutcome::List(ListStyleType::Decimal)
    }
}

/// Index of the first entry with key `k`.
fn assoc_find<V>(v: &Vec<(u32, V)>, k: u32) -> (r: Option<usize>)
    ensures
        match r {
            Some(i) => i < v@.len() && v@[i as int].0 == k && forall|j: int| 0 <= j < i ==> v@[j].0 != k,
            None => forall|j: int| 0 <= j < v@.len() ==> v@[j].0 != k,
        },
{
    let mut i: usize = 0;
    while i < v.len()
        invariant
            i <= v@.len(),
            forall|j: int| 0 <= j < i ==> v@[j].0 != k,
        decreases v@.len() - i,
    {
        if v[i].0 == k {
            return Some(i);
        }
        i = i + 1;
    }
    None
}

/// The levels of an abstract numbering definition that were never defined.
pub open spec fn empty_levels() -> Seq<Option<LevelOutcome>> {
    Seq::new(9, |i: int| None::<LevelOutcome>)
}

/// Minimal numbering lookup structure mapping numId → abstractNumId → levels.
#[derive(Debug)]
pub struct MinimalNumbering {
    /// abstractNumId and its nine level outcomes.
    abstract_levels: Vec<(u32, Vec<Option<LevelOutcome>>)>,
    /// numId and its abstractNumId.
    num_to_abstract: Vec<(u32, u32)>,
}

/// The plain content of a [`MinimalNumbering`].
pub struct NumberingView {
    /// abstractNumId → the outcomes of its nine levels.
    pub levels: Map<u32, Seq<Option<LevelOutcome>>>,
    /// numId → abstractNumId.
    pub nums: Map<u32, u32>,
}

impl View for MinimalNumbering {
    type V = NumberingView;

    closed spec fn view(&self) -> NumberingView {
        NumberingView {
            levels: assoc_map(self.abstract_levels@.map_values(|e: (u32, Vec<Option<LevelOutcome>>)| (e.0, e.1@))),
            nums: assoc_map(self.num_to_abstract@),
        }
    }
}

/// Every level table holds nine entries.
pub open spec fn levels_wf(m: Map<u32, Seq<Option<LevelOutcome>>>) -> bool {
    forall|a: u32| #[trigger] m.contains_key(a) ==> m[a].len() == 9
}

/// The lookup result of a paragraph that is not a list item.
pub open spec fn not_a_list() -> ListLookupResult {
    ListLookupResult { is_list: false, is_ordered: true, style_type: ListStyleType::Decimal }
}

/// The lookup result of a decimal list item.
pub open spec fn decimal_list() -> ListLookupResult {
    ListLookupResult { is_list: true, is_ordered: true, style_type: ListStyleType::Decimal }
}

/// Unordered marker styles.
pub open spec fn is_bullet_style(s: ListStyleType) -> bool {
    s is Disc || s is Circle || s is Square
}

/// Levels above 8 are read as level 8.
pub open spec fn clamp_level(ilvl: u32) -> int {
    if ilvl > 8 { 8 } else { ilvl as int }
}

/// What [`MinimalNumbering::resolve`] returns: `numId` 0 or an unknown
/// `numId` is no list; an unknown `abstractNumId` or an undefined level is a
/// decimal list; otherwise the level's outcome.
pub open spec fn spec_resolve(n: NumberingView, num_id: u32, ilvl: u32) -> ListLookupResult {
    if num_id == 0 || !n.nums.contains_key(num_id) {
        not_a_list()
    } else if !n.levels.contains_key(n.nums[num_id]) {
        decimal_list()
    } else {
        match n.levels[n.nums[num_id]][clamp_level(ilvl)] {
            None => decimal_list(),
            Some(LevelOutcome::NotAList) => not_a_list(),
            Some(LevelOutcome::List(s)) => ListLookupResult { is_list: true, is_ordered: !is_bullet_style(s), style_type: s },
        }
    }
}

/// The level table after finishing level `ilvl` of abstract definition `a`
/// with `outcome` (a level without `numFmt` is decimal).
pub open spec fn spec_finish_level(m: Map<u32, Seq<Option<LevelOutcome>>>, a: u32, ilvl: u32, outcome: Option<LevelOutcome>) -> Map<u32, Seq<Option<LevelOutcome>>> {
    let base = if m.contains_key(a) { m[a] } else { empty_levels() };
    let o = match outcome {
        Some(x) => x,
        None => LevelOutcome::List(ListStyleType::Decimal),
    };
    m.insert(a, base.update(clamp_level(ilvl), Some(o)))
}

impl MinimalNumbering {
    /// Every abstract definition holds nine levels.
    #[verifier::type_invariant]
    spec fn wf(&self) -> bool {
        forall|i: int| 0 <= i < self.abstract_levels@.len() ==> #[trigger] self.abstract_levels@[i].1@.len() == 9
    }

    proof fn lemma_wf(&self)
        requires
            self.wf(),
        ensures
            levels_wf(self@.levels),
    {
        let s = self.abstract_levels@.map_values(|e: (u32, Vec<Option<LevelOutcome>>)| (e.0, e.1@));
        assert forall|a: u32| #[trigger] self@.levels.contains_key(a) implies self@.levels[a].len() == 9 by {
            lemma_assoc_get_in(s, a);
            let i = choose|i: int| 0 <= i < s.len() && s[i] == (a, assoc_get(s, a)->0);
            assert(s[i] == (self.abstract_levels@[i].0, self.abstract_levels@[i].1@));
        }
    }

    /// Creates an empty `MinimalNumbering` with no entries.
    pub fn new() -> (n: MinimalNumbering)
        ensures
            n@.levels == Map::<u32, Seq<Option<LevelOutcome>>>::empty(),
            n@.nums == Map::<u32, u32>::empty(),
    {
        let n = MinimalNumbering { abstract_levels: Vec::new(), num_to_abstract: Vec::new() };
        assert(n@.levels =~= Map::<u32, Seq<Option<LevelOutcome>>>::empty());
        assert(n@.nums =~= Map::<u32, u32>::empty());
        n
    }

    /// The number of abstract numbering definitions held; zero exactly when
    /// none is.
    pub fn abstract_count(&self) -> (c: usize)
        ensures
            (c == 0) == (self@.levels.dom() == Set::<u32>::empty()),
    {
        let ghost s = self.abstract_levels@.map_values(|e: (u32, Vec<Option<LevelOutcome>>)| (e.0, e.1@));
        if self.abstract_levels.len() == 0 {
            assert(self@.levels.dom() =~= Set::<u32>::empty());
        } else {
            assert(s[0].0 == self.abstract_levels@[0].0);
            assert(self@.levels.dom().contains(s[0].0));
        }
        self.abstract_levels.len()
    }

    /// The number of numbering instances held; zero exactly when none is.
    pub fn num_count(&self) -> (c: usize)
        ensures
            (c == 0) == (self@.nums.dom() == Set::<u32>::empty()),
    {
        if self.num_to_abstract.len() == 0 {
            assert(self@.nums.dom() =~= Set::<u32>::empty());
        } else {
            assert(self@.nums.dom().contains(self.num_to_abstract@[0].0));
        }
        self.num_to_abstract.len()
    }

    /// Binds `num_id` to `abstract_num_id`, replacing an earlier binding.
    pub fn link_num(&mut self, num_id: u32, abstract_num_id: u32)
        ensures
            final(self)@.nums == old(self)@.nums.insert(num_id, abstract_num_id),
            final(self)@.levels == old(self)@.levels,
    {
        proof { use_type_invariant(&*self); }
        let ghost before = self.num_to_abstract@;
        let mut nums: Vec<(u32, u32)> = Vec::new();
        std::mem::swap(&mut nums, &mut self.num_to_abstract);
        match assoc_find(&nums, num_id) {
            Some(i) => {
                proof { lemma_assoc_set(before, i as int, num_id, abstract_num_id); }
                nums.set(i, (num_id, abstract_num_id));
            },
            None => {
                proof { lemma_assoc_push(before, num_id, abstract_num_id); }
                nums.push((num_id, abstract_num_id));
            },
        }
        self.num_to_abstract = nums;
        proof {
            assert(self@.nums =~= assoc_map(before).insert(num_id, abstract_num_id));
            assert(self.abstract_levels@ == old(self).abstract_levels@);
        }
    }

    fn levels_seq(&self) -> (s: Ghost<Seq<(u32, Seq<Option<LevelOutcome>>)>>)
        ensures
            s@ == self.abstract_levels@.map_values(|e: (u32, Vec<Option<LevelOutcome>>)| (e.0, e.1@)),
            self@.levels == assoc_map(s@),
            self@.nums == assoc_map(self.num_to_abstract@),
    {
        Ghost(self.abstract_levels@.map_values(|e: (u32, Vec<Option<LevelOutcome>>)| (e.0, e.1@)))
    }

    /// Replaces the level table of `abstract_num_id`.
    pub fn insert_abstract_levels(&mut self, abstract_num_id: u32, levels: [Option<LevelOutcome>; 9])
        ensures
            final(self)@.levels == old(self)@.levels.insert(abstract_num_id, levels@),
            final(self)@.nums == old(self)@.nums,
    {
        let mut lv: Vec<Option<LevelOutcome>> = Vec::new();
        let mut j: usize = 0;
        while j < 9
            invariant
                j <= 9,
                levels@.len() == 9,
                lv@ == levels@.take(j as int),
            decreases 9 - j,
        {
            lv.push(levels[j]);
            j = j + 1;
            assert(lv@ =~= levels@.take(j as int));
        }
        assert(lv@ =~= levels@);
        self.put_levels(abstract_num_id, lv);
    }

    fn put_levels(&mut self, a: u32, lv: Vec<Option<LevelOutcome>>)
        requires
            lv@.len() == 9,
        ensures
            final(self)@.levels == old(self)@.levels.insert(a, lv@),
            final(self)@.nums == old(self)@.nums,
    {
        proof { use_type_invariant(&*self); }
        let Ghost(before) = self.levels_seq();
        let ghost lvv = lv@;
        let ghost al0 = self.abstract_levels@;
        let mut al: Vec<(u32, Vec<Option<LevelOutcome>>)> = Vec::new();
        std::mem::swap(&mut al, &mut self.abstract_levels);
        match assoc_find(&al, a) {
            Some(i) => {
                proof {
                    assert(before[i as int].0 == a);
                    lemma_assoc_set(before, i as int, a, lvv);
                }
                al.set(i, (a, lv));
                assert(al@.map_values(|e: (u32, Vec<Option<LevelOutcome>>)| (e.0, e.1@)) =~= before.update(i as int, (a, lvv)));
            },
            None => {
                proof {
                    assert forall|j: int| 0 <= j < before.len() implies before[j].0 != a by {
                        assert(before[j].0 == al0[j].0);
                    }
                    lemma_assoc_push(before, a, lvv);
                }
                al.push((a, lv));
                assert(al@.map_values(|e: (u32, Vec<Option<LevelOutcome>>)| (e.0, e.1@)) =~= before.push((a, lvv)));
            },
        }
        assert forall|k: int| 0 <= k < al@.len() implies #[trigger] al@[k].1@.len() == 9 by {
            if k < al0.len() && al@[k] == al0[k] {
                assert(al0[k].1@.len() == 9);
            }
        }
        self.abstract_levels = al;
        let Ghost(after) = self.levels_seq();
        assert(self@.levels =~= assoc_map(before).insert(a, lvv));
    }

    fn copy_levels(&self, i: usize) -> (r: Vec<Option<LevelOutcome>>)
        requires
            i < self.abstract_levels@.len(),
        ensures
            r@ == self.abstract_levels@[i as int].1@,
            r@.len() == 9,
    {
        proof { use_type_invariant(self); }
        let src = &self.abstract_levels[i].1;
        let mut lv: Vec<Option<LevelOutcome>> = Vec::new();
        let mut j: usize = 0;
        while j < src.len()
            invariant
                j <= src@.len(),
                lv@ == src@.take(j as int),
            decreases src@.len() - j,
        {
            lv.push(src[j]);
            j = j + 1;
            assert(lv@ =~= src@.take(j as int));
        }
        assert(lv@ =~= src@);
        lv
    }

    /// Records a finished `w:lvl`: slot `min(ilvl, 8)` of abstract
    /// definition `a` gets `outcome`, or a decimal list when the level had no
    /// `numFmt`; a definition seen for the first time starts with nine
    /// undefined levels.
    pub fn finish_level(&mut self, a: u32, ilvl: u32, outcome: Option<LevelOutcome>)
        ensures
            final(self)@.levels == spec_finish_level(old(self)@.levels, a, ilvl, outcome),
            final(self)@.nums == old(self)@.nums,
    {
        let Ghost(before) = self.levels_seq();
        let slot: usize = if ilvl > 8 { 8 } else { ilvl as usize };
        let o = match outcome {
            Some(x) => x,
            None => LevelOutcome::List(ListStyleType::Decimal),
        };
        let mut lv = match assoc_find(&self.abstract_levels, a) {
            Some(i) => {
                proof {
                    assert(before[i as int] == (self.abstract_levels@[i as int].0, self.abstract_levels@[i as int].1@));
                    assert forall|j: int| 0 <= j < i implies before[j].0 != a by {
                        assert(before[j].0 == self.abstract_levels@[j].0);
                    }
                    lemma_assoc_first(before, i as int, a);
                }
                self.copy_levels(i)
            },
            None => {
                proof {
                    assert forall|j: int| 0 <= j < before.len() implies before[j].0 != a by {
                        assert(before[j].0 == self.abstract_levels@[j].0);
                    }
                    lemma_assoc_absent(before, a);
                }
                let mut fresh: Vec<Option<LevelOutcome>> = Vec::new();
                let mut j: usize = 0;
                while j < 9
                    invariant
                        j <= 9,
                        fresh@ == empty_levels().take(j as int),
                    decreases 9 - j,
                {
                    fresh.push(None);
                    j = j + 1;
                    assert(fresh@ =~= empty_levels().take(j as int));
                }
                assert(fresh@ =~= empty_levels());
                fresh
            },
        };
        let ghost base = lv@;
        assert(base == (if self@.levels.contains_key(a) { self@.levels[a] } else { empty_levels() }));
        lv.set(slot, Some(o));
        self.put_levels(a, lv);
    }

    /// Resolves a `numId` and `ilvl` to a list lookup result: `numId` 0 (a
    /// paragraph that leaves list membership, §17.9.18) and unknown `numId`s
    /// are no list; an unknown abstract definition or undefined level is an
    /// ordered decimal list; `ilvl` above 8 reads level 8.
    pub fn resolve(&self, num_id: u32, ilvl: u32) -> (r: ListLookupResult)
        ensures
            r == spec_resolve(self@, num_id, ilvl),
    {
        let Ghost(ls) = self.levels_seq();
        proof {
            use_type_invariant(self);
            self.lemma_wf();
        }
        let not_list = ListLookupResult { is_list: false, is_ordered: true, style_type: ListStyleType::Decimal };
        let decimal = ListLookupResult { is_list: true, is_ordered: true, style_type: ListStyleType::Decimal };
        if num_id == 0 {
            return not_list;
        }
        let ni = match assoc_find(&self.num_to_abstract, num_id) {
            Some(i) => i,
            None => {
                proof {
                    lemma_assoc_absent(self.num_to_abstract@, num_id);
                }
                return not_list;
            },
        };
        let abs = self.num_to_abstract[ni].1;
        proof {
            lemma_assoc_first(self.num_to_abstract@, ni as int, num_id);
        }
        let ai = match assoc_find(&self.abstract_levels, abs) {
            Some(i) => i,
            None => {
                proof {
                    assert forall|j: int| 0 <= j < ls.len() implies ls[j].0 != abs by {
                        assert(ls[j].0 == self.abstract_levels@[j].0);
                    }
                    lemma_assoc_absent(ls, abs);
                }
                return decimal;
            },
        };
        proof {
            assert(ls[ai as int] == (self.abstract_levels@[ai as int].0, self.abstract_levels@[ai as int].1@));
            assert forall|j: int| 0 <= j < ai implies ls[j].0 != abs by {
                assert(ls[j].0 == self.abstract_levels@[j].0);
            }
            lemma_assoc_first(ls, ai as int, abs);
        }
        let slot: usize = if ilvl > 8 { 8 } else { ilvl as usize };
        let levels = &self.abstract_levels[ai].1;
        match levels[slot] {
            None => decimal,
            Some(LevelOutcome::NotAList) => not_list,
            Some(LevelOutcome::List(s)) => {
                let bullet = matches!(s, ListStyleType::Disc | ListStyleType::Circle | ListStyleType::Square);
                ListLookupResult { is_list: true, is_ordered: !bullet, style_type: s }
            },
        }
    }
}

impl Default for MinimalNumbering {
    /// The empty table, as [`MinimalNumbering::new`].
    fn default() -> (n: Self)
        ensures
            n@.levels == Map::<u32, Seq<Option<LevelOutcome>>>::empty(),
            n@.nums == Map::<u32, u32>::empty(),
    {
        MinimalNumbering::new()
    }
}

/// Where a scan of `numbering.xml` stands.
#[derive(Debug, Clone, Copy, PartialEq, Eq, Structural)]
pub enum NumScanPhase {
    Scanning,
    Done,
    Failed,
}

/// The state of a scan of `numbering.xml`.
pub struct NumScanView {
    pub phase: NumScanPhase,
    /// Open elements.
    pub depth: usize,
    /// The `abstractNumId` of the open `w:abstractNum`, if read.
    pub cur_abstract: Option<u32>,
    /// The `ilvl` of the open `w:lvl`, if read.
    pub cur_ilvl: Option<u32>,
    /// The outcome of its `w:numFmt`, if seen.
    pub outcome: Option<LevelOutcome>,
    /// The `numId` of the open `w:num`, if read.
    pub cur_num: Option<u32>,
    pub numbering: NumberingView,
    pub error: Seq<char>,
}

/// The message of a malformed attribute of `numbering.xml`.
pub open spec fn num_attr_msg(m: Seq<char>) -> Seq<char> {
    "malformed numbering.xml attribute: "@ + m
}

/// The scan stopped with the error `msg`.
pub open spec fn num_fail(s: NumScanView, msg: Seq<char>) -> NumScanView {
    NumScanView { phase: NumScanPhase::Failed, error: msg, ..s }
}

/// The state of the `numbering.xml` scan before any token.
pub open spec fn num_initial() -> NumScanView {
    NumScanView {
        phase: NumScanPhase::Scanning,
        depth: 0,
        cur_abstract: None,
        cur_ilvl: None,
        outcome: None,
        cur_num: None,
        numbering: NumberingView { levels: Map::empty(), nums: Map::empty() },
        error: Seq::empty(),
    }
}

/// `w:numFmt` inside a level of an abstract definition.
pub open spec fn num_on_num_fmt(s: NumScanView, tag: XmlTag) -> NumScanView {
    match spec_checked_attr(tag, "val"@) {
        Err(e) => num_fail(s, num_attr_msg(e.1)),
        Ok(Some(v)) => NumScanView { outcome: Some(spec_parse_num_fmt(v)), ..s },
        Ok(None) => s,
    }
}

/// `w:abstractNumId` binds the open `w:num`.
pub open spec fn num_on_abstract_num_id(s: NumScanView, tag: XmlTag) -> NumScanView {
    match spec_u32_attr(tag, "val"@) {
        Err(e) => num_fail(s, num_attr_msg(e.1)),
        Ok(v) => if s.cur_num is Some && v is Some {
            NumScanView { numbering: NumberingView { nums: s.numbering.nums.insert(s.cur_num->0, v->0), ..s.numbering }, ..s }
        } else {
            s
        },
    }
}

/// The scan after a start tag.
pub open spec fn num_on_start(s: NumScanView, tag: XmlTag) -> NumScanView {
    let n = local_name(tag.name@);
    if n == "abstractNum"@ {
        match spec_u32_attr(tag, "abstractNumId"@) {
            Err(e) => num_fail(s, num_attr_msg(e.1)),
            Ok(v) => NumScanView { cur_abstract: v, ..s },
        }
    } else if n == "lvl"@ && s.cur_abstract is Some {
        match spec_u32_attr(tag, "ilvl"@) {
            Err(e) => num_fail(s, num_attr_msg(e.1)),
            Ok(v) => NumScanView { cur_ilvl: v, outcome: None, ..s },
        }
    } else if n == "numFmt"@ && s.cur_abstract is Some && s.cur_ilvl is Some {
        num_on_num_fmt(s, tag)
    } else if n == "num"@ {
        match spec_u32_attr(tag, "numId"@) {
            Err(e) => num_fail(s, num_attr_msg(e.1)),
            Ok(v) => NumScanView { cur_num: v, ..s },
        }
    } else if n == "abstractNumId"@ {
        num_on_abstract_num_id(s, tag)
    } else {
        s
    }
}

/// The scan after an end tag named `name`.
pub open spec fn num_on_end(s: NumScanView, name: Seq<char>) -> NumScanView {
    let n = local_name(name);
    let s1 = if n == "lvl"@ {
        let levels = if s.cur_abstract is Some && s.cur_ilvl is Some {
            spec_finish_level(s.numbering.levels, s.cur_abstract->0, s.cur_ilvl->0, s.outcome)
        } else {
            s.numbering.levels
        };
        NumScanView { numbering: NumberingView { levels, ..s.numbering }, cur_ilvl: None, outcome: None, ..s }
    } else if n == "abstractNum"@ {
        NumScanView { cur_abstract: None, ..s }
    } else if n == "num"@ {
        NumScanView { cur_num: None, ..s }
    } else {
        s
    };
    if s1.depth == 0 {
        num_fail(s1, "malformed numbering.xml"@)
    } else {
        NumScanView { depth: (s1.depth - 1) as usize, ..s1 }
    }
}

/// One token of `numbering.xml`.
pub open spec fn num_step(s: NumScanView, t: XmlToken) -> NumScanView {
    if s.phase != NumScanPhase::Scanning {
        s
    } else {
        match t {
            XmlToken::Start(tag) => num_on_start(
                NumScanView { depth: if s.depth == usize::MAX { s.depth } else { (s.depth + 1) as usize }, ..s },
                tag,
            ),
            XmlToken::Empty(tag) => {
                let n = local_name(tag.name@);
                if n == "numFmt"@ && s.cur_abstract is Some && s.cur_ilvl is Some {
                    num_on_num_fmt(s, tag)
                } else if n == "abstractNumId"@ {
                    num_on_abstract_num_id(s, tag)
                } else {
                    s
                }
            },
            XmlToken::End(name) => num_on_end(s, name@),
            XmlToken::Eof => if s.depth != 0 {
                num_fail(s, "malformed numbering.xml"@)
            } else {
                NumScanView { phase: NumScanPhase::Done, ..s }
            },
            XmlToken::Malformed(m) => num_fail(s, "malformed numbering.xml: "@ + m@),
            _ => s,
        }
    }
}

/// The state of the `numbering.xml` scan after the tokens `toks`.
pub open spec fn num_run(toks: Seq<XmlToken>) -> NumScanView
    decreases toks.len(),
{
    if toks.len() == 0 {
        num_initial()
    } else {
        num_step(num_run(toks.drop_last()), toks.last())
    }
}

/// What parsing `numbering.xml` from its tokens gives.
pub open spec fn spec_parse_numbering(toks: Seq<XmlToken>) -> Result<NumberingView, Seq<char>> {
    let f = num_run(toks);
    if f.phase == NumScanPhase::Failed {
        Err(f.error)
    } else {
        Ok(f.numbering)
    }
}

struct NumScan {
    phase: NumScanPhase,
    depth: usize,
    cur_abstract: Option<u32>,
    cur_ilvl: Option<u32>,
    outcome: Option<LevelOutcome>,
    cur_num: Option<u32>,
    numbering: MinimalNumbering,
    error: String,
}

impl View for NumScan {
    type V = NumScanView;

    closed spec fn view(&self) -> NumScanView {
        NumScanView {
            phase: self.phase,
            depth: self.depth,
            cur_abstract: self.cur_abstract,
            cur_ilvl: self.cur_ilvl,
            outcome: self.outcome,
            cur_num: self.cur_num,
            numbering: self.numbering@,
            error: self.error@,
        }
    }
}

fn num_fault_text(f: AttrFault) -> (m: String)
    ensures
        match f {
            AttrFault::Syntax(x) => m@ == num_attr_msg(x@),
            AttrFault::Value(x) => m@ == num_attr_msg(x@),
        },
{
    match f {
        AttrFault::Syntax(x) => concat_str("malformed numbering.xml attribute: ", x.as_str()),
        AttrFault::Value(x) => concat_str("malformed numbering.xml attribute: ", x.as_str()),
    }
}

impl NumScan {
    fn fail(&mut self, msg: String)
        ensures
            final(self)@ == num_fail(old(self)@, msg@),
            final(self).numbering == old(self).numbering,
    {
        self.phase = NumScanPhase::Failed;
        self.error = msg;
    }

    fn on_num_fmt(&mut self, tag: &XmlTag)
        ensures
            final(self)@ == num_on_num_fmt(old(self)@, *tag),
            final(self).numbering == old(self).numbering,
    {
        match checked_attr(tag, "val") {
            Err(f) => self.fail(num_fault_text(f)),
            Ok(Some(v)) => self.outcome = Some(parse_num_fmt(v.as_str())),
            Ok(None) => {},
        }
    }

    fn on_abstract_num_id(&mut self, tag: &XmlTag)
        ensures
            final(self)@ == num_on_abstract_num_id(old(self)@, *tag),
    {
        match u32_attr(tag, "val") {
            Err(f) => self.fail(num_fault_text(f)),
            Ok(v) => {
                if let (Some(n), Some(a)) = (self.cur_num, v) {
                    self.numbering.link_num(n, a);
                }
            },
        }
    }

    fn on_start(&mut self, tag: &XmlTag)
        ensures
            final(self)@ == num_on_start(old(self)@, *tag),
    {
        let name = tag.name.as_str();
        if local_is(name, "abstractNum") {
            match u32_attr(tag, "abstractNumId") {
                Err(f) => self.fail(num_fault_text(f)),
                Ok(v) => self.cur_abstract = v,
            }
        } else if local_is(name, "lvl") && self.cur_abstract.is_some() {
            match u32_attr(tag, "ilvl") {
                Err(f) => self.fail(num_fault_text(f)),
                Ok(v) => {
                    self.cur_ilvl = v;
                    self.outcome = None;
                },
            }
        } else if local_is(name, "numFmt") && self.cur_abstract.is_some() && self.cur_ilvl.is_some() {
            self.on_num_fmt(tag);
        } else if local_is(name, "num") {
            match u32_attr(tag, "numId") {
                Err(f) => self.fail(num_fault_text(f)),
                Ok(v) => self.cur_num = v,
            }
        } else if local_is(name, "abstractNumId") {
            self.on_abstract_num_id(tag);
        }
    }

    fn on_end(&mut self, name: &String)
        ensures
            final(self)@ == num_on_end(old(self)@, name@),
    {
        if local_is(name.as_str(), "lvl") {
            if let (Some(a), Some(l)) = (self.cur_abstract, self.cur_ilvl) {
                self.numbering.finish_level(a, l, self.outcome);
            }
            self.cur_ilvl = None;
            self.outcome = None;
        } else if local_is(name.as_str(), "abstractNum") {
            self.cur_abstract = None;
        } else if local_is(name.as_str(), "num") {
            self.cur_num = None;
        }
        if self.depth == 0 {
            self.fail(String::from_str("malformed numbering.xml"));
        } else {
            self.depth = self.depth - 1;
        }
    }

    fn step(&mut self, t: &XmlToken)
        ensures
            final(self)@ == num_step(old(self)@, *t),
    {
        if self.phase != NumScanPhase::Scanning {
            return;
        }
        match t {
            XmlToken::Start(tag) => {
                self.depth = self.depth.saturating_add(1);
                self.on_start(tag);
            },
            XmlToken::Empty(tag) => {
                let name = tag.name.as_str();
                if local_is(name, "numFmt") && self.cur_abstract.is_some() && self.cur_ilvl.is_some() {
                    self.on_num_fmt(tag);
                } else if local_is(name, "abstractNumId") {
                    self.on_abstract_num_id(tag);
                }
            },
            XmlToken::End(name) => self.on_end(name),
            XmlToken::Eof => {
                if self.depth != 0 {
                    self.fail(String::from_str("malformed numbering.xml"));
                } else {
                    self.phase = NumScanPhase::Done;
                }
            },
            XmlToken::Malformed(m) => self.fail(concat_str("malformed numbering.xml: ", m.as_str())),
            _ => {},
        }
    }
}

/// Reads the numbering definitions from the tokens of `numbering.xml`:
/// abstract definitions with their levels, and the `numId` →
/// `abstractNumId` bindings. Unbalanced elements are an error.
pub fn parse_numbering_tokens(toks: &Vec<XmlToken>) -> (r: Result<MinimalNumbering, DocxError>)
    ensures
        match spec_parse_numbering(toks@) {
            Ok(v) => r is Ok && r->Ok_0@ == v,
            Err(m) => r is Err && is_parse_error(r->Err_0, m),
        },
{
    let mut st = NumScan {
        phase: NumScanPhase::Scanning,
        depth: 0,
        cur_abstract: None,
        cur_ilvl: None,
        outcome: None,
        cur_num: None,
        numbering: MinimalNumbering::new(),
        error: String::new(),
    };
    let mut i: usize = 0;
    while i < toks.len()
        invariant
            i <= toks@.len(),
            st@ == num_run(toks@.take(i as int)),
        decreases toks@.len() - i,
    {
        assert(toks@.take(i + 1).drop_last() =~= toks@.take(i as int));
        st.step(&toks[i]);
        i = i + 1;
    }
    assert(toks@.take(toks@.len() as int) =~= toks@);
    if st.phase == NumScanPhase::Failed {
        Err(parse_error(st.error))
    } else {
        Ok(st.numbering)
    }
}

/// Parses DOCX `numbering.xml` into the minimal list lookup structure.
pub fn parse_numbering(bytes: Vec<u8>) -> (r: Result<MinimalNumbering, DocxError>)
    ensures
        match spec_parse_numbering(xml_tokens(bytes@, true)) {
            Ok(v) => r is Ok && r->Ok_0@ == v,
            Err(m) => r is Err && is_parse_error(r->Err_0, m),
        },
{
    let toks = tokenize_xml(bytes, true);
    parse_numbering_tokens(&toks)
}

} // verus!

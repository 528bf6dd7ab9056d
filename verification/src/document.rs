//! The main document part (`word/document.xml`): a pull parser that turns
//! its tokens into document events.

use vstd::prelude::*;

use std::collections::VecDeque;

use crate::assoc::{assoc_get, assoc_map, lemma_assoc_absent, lemma_assoc_first, lemma_assoc_push, lemma_assoc_set};
use crate::events::{
    events_view, parse_error, spec_decimal, u32_to_decimal, Color, DocxError, Event, EventView, ImageSource,
    ImageSourceView, ListStyleType, TableHeaderScope, TextAlignment, TextStyleKind,
};
use crate::numbering::{spec_resolve, MinimalNumbering, NumberingView};
use crate::properties::{
    parse_alignment, parse_color_val, parse_grid_span_value, parse_highlight_val, parse_on_off, parse_shd_fill,
    parse_sym_char, parse_underline_on, parse_vert_align, spec_parse_alignment, spec_parse_color_val,
    spec_parse_grid_span_value, spec_parse_highlight_val, spec_parse_on_off, spec_parse_underline_on, spec_parse_vert_align, VertAlign,
};
use crate::rels::{HyperlinkMap, ImageMap};
use crate::styles::{StyleClassification, StyleList};
use crate::symbol_fonts::{spec_font_convert, spec_font_from_name, SymbolFont};
use crate::text::{chars_of, concat_str, str_eq, str_is_empty, string_from_chars};
use crate::xml::{
    exact_attr, local_is, local_name, local_name_of, lookup_exact, xml_missing_end_message, xml_missing_end_text, xml_unescape,
    xml_unescaped, XmlTag, XmlToken,
};

verus! {

/// The deepest list level (`w:ilvl`) a paragraph can have.
pub const MAX_LIST_LEVEL: u32 = 8;

/// Document processing phase.
#[derive(Debug, Clone, Copy, PartialEq, Eq, Structural)]
pub enum Phase {
    /// `EndDocument` has been emitted.
    Finished,
    /// `StartDocument` not yet emitted.
    NotStarted,
    /// Between `StartDocument` and `EndDocument`.
    Running,
}

/// The kind of block-level element opened for the current paragraph.
#[derive(Debug, Clone, Copy, PartialEq, Eq)]
pub enum ParagraphBlockKind {
    Paragraph,
    Heading { level: u8 },
    BlockQuote,
    Preformatted,
    OrderedListItem { num_id: u32, ilvl: u32, start: Option<u64>, style_type: ListStyleType },
    UnorderedListItem { num_id: u32, ilvl: u32, style_type: ListStyleType },
}

/// One open level on the list nesting stack.
#[derive(Debug, Clone, Copy, PartialEq, Eq)]
pub struct ListStackEntry {
    /// The `w:numId` of the list this entry belongs to.
    pub num_id: u32,
    /// The 0-indexed nesting depth (`w:ilvl`).
    pub ilvl: u32,
    /// Whether this entry's level is ordered.
    pub is_ordered: bool,
}

/// The list stack holds levels `0, 1, ..., n - 1`, in order.
pub open spec fn stack_wf(s: Seq<ListStackEntry>) -> bool {
    forall|i: int| 0 <= i < s.len() ==> #[trigger] s[i].ilvl == i
}

/// The event that closes a list item.
pub open spec fn list_end_view(is_ordered: bool) -> EventView {
    if is_ordered { EventView::EndOrderedListItem } else { EventView::EndUnorderedListItem }
}

/// The event that opens a list item at `level` of list `num_id`.
pub open spec fn list_start_view(num_id: u32, level: u32, start: Option<u64>, style_type: ListStyleType, is_ordered: bool) -> EventView {
    if is_ordered {
        EventView::StartOrderedListItem { id: Some(spec_decimal(num_id as nat)), level, start, style_type }
    } else {
        EventView::StartUnorderedListItem { id: Some(spec_decimal(num_id as nat)), level, style_type }
    }
}

/// The end events for the entries of `s` above index `down_to`, top first.
pub open spec fn pop_events(s: Seq<ListStackEntry>, down_to: int) -> Seq<EventView>
    decreases s.len(),
{
    if s.len() <= down_to || s.len() == 0 {
        Seq::empty()
    } else {
        seq![list_end_view(s.last().is_ordered)] + pop_events(s.drop_last(), down_to)
    }
}

/// The style of a level opened only to reach a deeper one.
pub open spec fn phantom_style(is_ordered: bool) -> ListStyleType {
    if is_ordered { ListStyleType::Decimal } else { ListStyleType::Disc }
}

/// The start events of the levels `from .. to` opened to reach a deeper one.
pub open spec fn phantom_events(num_id: u32, from: int, to: int, is_ordered: bool) -> Seq<EventView>
    decreases to - from,
{
    if from >= to {
        Seq::empty()
    } else {
        seq![list_start_view(num_id, from as u32, None, phantom_style(is_ordered), is_ordered)]
            + phantom_events(num_id, from + 1, to, is_ordered)
    }
}

/// The entries of the levels `from .. to` opened to reach a deeper one.
pub open spec fn phantom_entries(num_id: u32, from: int, to: int, is_ordered: bool) -> Seq<ListStackEntry> {
    Seq::new((to - from) as nat, |k: int| ListStackEntry { num_id, ilvl: (from + k) as u32, is_ordered })
}

/// What reconciling the list stack `s` for a new item at `ilvl` does: the
/// stack after, the events emitted, and whether the item continues an item
/// at the same level. Deeper levels close; a level equal to `ilvl` closes
/// too and makes the item sequential; missing shallower levels open as
/// phantom items; then the item's level opens.
pub open spec fn spec_reconcile(s: Seq<ListStackEntry>, num_id: u32, ilvl: u32, is_ordered: bool) -> (Seq<ListStackEntry>, Seq<EventView>, bool) {
    let keep = if s.len() > ilvl { ilvl as int } else { s.len() as int };
    let kept = s.subrange(0, keep);
    (
        kept + phantom_entries(num_id, keep, ilvl as int, is_ordered) + seq![ListStackEntry { num_id, ilvl, is_ordered }],
        pop_events(s, keep) + phantom_events(num_id, keep, ilvl as int, is_ordered),
        s.len() > ilvl,
    )
}

/// The start value of a list item: the new count of items at its level,
/// shown for the first item of a level and for an item that resumes after a
/// break; none for a sequential continuation.
pub open spec fn spec_compute_start(count: u64, sequential: bool) -> Option<u64> {
    let next = if count == u64::MAX { count } else { (count + 1) as u64 };
    if count == 0 || !sequential { Some(next) } else { None }
}

/// The counter of a level after one more item.
pub open spec fn bumped(count: u64) -> u64 {
    if count == u64::MAX { count } else { (count + 1) as u64 }
}

/// Package-level data the document reader consults while streaming.
pub struct DocxData {
    /// Styles, used to classify paragraph and run styles.
    pub style_list: StyleList,
    /// Relationship id → target URL for `<w:hyperlink r:id>`.
    pub hyperlink_map: HyperlinkMap,
    /// Numbering definitions, used to resolve list styles.
    pub numbering: MinimalNumbering,
    /// Relationship id → image relationship.
    pub image_map: ImageMap,
}

/// The parsing state of a [`DocumentReader`].
struct Parser {
    pos: usize,
    pending_preformatted_close: bool,
    open_styles: Vec<TextStyleKind>,
    phase: Phase,
    queue: VecDeque<Event>,
    data: DocxData,
    list_stack: Vec<ListStackEntry>,
    list_counters: Vec<((u32, u32), u64)>,
}

/// Index of the first counter for `(num_id, ilvl)`.
fn find_counter(v: &Vec<((u32, u32), u64)>, num_id: u32, ilvl: u32) -> (r: Option<usize>)
    ensures
        match r {
            Some(i) => i < v@.len() && v@[i as int].0 == (num_id, ilvl) && forall|j: int| 0 <= j < i ==> v@[j].0 != (num_id, ilvl),
            None => forall|j: int| 0 <= j < v@.len() ==> v@[j].0 != (num_id, ilvl),
        },
{
    let mut i: usize = 0;
    while i < v.len()
        invariant
            i <= v@.len(),
            forall|j: int| 0 <= j < i ==> v@[j].0 != (num_id, ilvl),
        decreases v@.len() - i,
    {
        let k = v[i].0;
        if k.0 == num_id && k.1 == ilvl {
            assert(k == (num_id, ilvl));
            return Some(i);
        }
        i = i + 1;
    }
    None
}

/// Whether a cell event leaves its row span unset (cells are never merged
/// vertically).
pub open spec fn cell_span_clear(e: EventView) -> bool {
    match e {
        EventView::StartTableCell { rowspan, .. } => rowspan is None,
        EventView::StartTableHeader { rowspan, .. } => rowspan is None,
        _ => true,
    }
}

/// Whether every cell event of `q` leaves its row span unset.
pub open spec fn spans_clear(q: Seq<EventView>) -> bool {
    forall|i: int| 0 <= i < q.len() ==> cell_span_clear(#[trigger] q[i])
}

impl Parser {
    spec fn wf(&self) -> bool {
        &&& stack_wf(self.list_stack@)
        &&& spans_clear(self.qv())
    }

    spec fn counters(&self) -> Map<(u32, u32), u64> {
        assoc_map(self.list_counters@)
    }

    spec fn qv(&self) -> Seq<EventView> {
        events_view(self.queue@)
    }

    /// Appends one event.
    fn emit(&mut self, e: Event)
        ensures
            final(self).qv() == old(self).qv().push(e@),
            final(self).pos == old(self).pos,
            final(self).list_stack == old(self).list_stack,
            final(self).list_counters == old(self).list_counters,
            final(self).pending_preformatted_close == old(self).pending_preformatted_close,
            final(self).open_styles == old(self).open_styles,
            final(self).phase == old(self).phase,
            final(self).data == old(self).data,
    {
        let ghost before = self.queue@;
        self.queue.push_back(e);
        assert(events_view(self.queue@) =~= events_view(before).push(e@));
    }

    fn emit_list_item_end(&mut self, is_ordered: bool)
        ensures
            final(self).qv() == old(self).qv().push(list_end_view(is_ordered)),
            final(self).pos == old(self).pos,
            final(self).list_stack == old(self).list_stack,
            final(self).list_counters == old(self).list_counters,
            final(self).pending_preformatted_close == old(self).pending_preformatted_close,
            final(self).open_styles == old(self).open_styles,
            final(self).phase == old(self).phase,
            final(self).data == old(self).data,
    {
        self.emit(if is_ordered { Event::EndOrderedListItem } else { Event::EndUnorderedListItem });
    }

    fn emit_list_item_start(&mut self, num_id: u32, ilvl: u32, start: Option<u64>, style_type: ListStyleType, is_ordered: bool)
        ensures
            final(self).qv() == old(self).qv().push(list_start_view(num_id, ilvl, start, style_type, is_ordered)),
            final(self).pos == old(self).pos,
            final(self).list_stack == old(self).list_stack,
            final(self).list_counters == old(self).list_counters,
            final(self).pending_preformatted_close == old(self).pending_preformatted_close,
            final(self).open_styles == old(self).open_styles,
            final(self).phase == old(self).phase,
            final(self).data == old(self).data,
    {
        let id = u32_to_decimal(num_id);
        if is_ordered {
            self.emit(Event::StartOrderedListItem { id: Some(id), level: ilvl, start, style_type });
        } else {
            self.emit(Event::StartUnorderedListItem { id: Some(id), level: ilvl, style_type });
        }
    }

    /// Closes every open list level, innermost first.
    fn flush_list_stack(&mut self)
        ensures
            final(self).qv() == old(self).qv() + pop_events(old(self).list_stack@, 0),
            table_free(final(self).qv(), old(self).qv().len() as int),
            final(self).list_stack@ == Seq::<ListStackEntry>::empty(),
            final(self).pos == old(self).pos,
            final(self).list_counters == old(self).list_counters,
            final(self).pending_preformatted_close == old(self).pending_preformatted_close,
            final(self).open_styles == old(self).open_styles,
            final(self).phase == old(self).phase,
            final(self).data == old(self).data,
    {
        let ghost s0 = self.list_stack@;
        let ghost q0 = self.qv();
        while self.list_stack.len() > 0
            invariant
                self.list_stack@ == s0.subrange(0, self.list_stack@.len() as int),
                self.list_stack@.len() <= s0.len(),
                q0 + pop_events(s0, 0) == self.qv() + pop_events(self.list_stack@, 0),
                self.pos == old(self).pos,
                self.list_counters == old(self).list_counters,
                self.pending_preformatted_close == old(self).pending_preformatted_close,
                self.open_styles == old(self).open_styles,
                self.phase == old(self).phase,
                self.data == old(self).data,
            decreases self.list_stack@.len(),
        {
            let ghost cur = self.list_stack@;
            let entry = self.list_stack.pop().unwrap();
            assert(cur.drop_last() =~= self.list_stack@);
            assert(pop_events(cur, 0) == seq![list_end_view(entry.is_ordered)] + pop_events(self.list_stack@, 0));
            self.emit_list_item_end(entry.is_ordered);
            assert(self.list_stack@ =~= s0.subrange(0, self.list_stack@.len() as int));
        }
        assert(pop_events(self.list_stack@, 0) == Seq::<EventView>::empty());
        proof {
            lemma_pop_events_table_free(s0, 0);
            lemma_table_free_append(q0, pop_events(s0, 0));
        }
    }

    /// Reconciles the list stack for a new item at `(num_id, ilvl)`; returns
    /// whether a same-level entry was closed (a sequential continuation).
    fn reconcile_list_stack(&mut self, num_id: u32, ilvl: u32, is_ordered: bool) -> (found: bool)
        requires
            stack_wf(old(self).list_stack@),
            ilvl <= MAX_LIST_LEVEL,
        ensures
            ({
                let (s, evs, seq) = spec_reconcile(old(self).list_stack@, num_id, ilvl, is_ordered);
                &&& final(self).list_stack@ == s
                &&& final(self).qv() == old(self).qv() + evs
                &&& found == seq
            }),
            stack_wf(final(self).list_stack@),
            final(self).pos == old(self).pos,
            final(self).list_counters == old(self).list_counters,
            final(self).pending_preformatted_close == old(self).pending_preformatted_close,
            final(self).open_styles == old(self).open_styles,
            final(self).phase == old(self).phase,
            final(self).data == old(self).data,
    {
        let ghost s0 = self.list_stack@;
        let ghost q0 = self.qv();
        let ghost keep: int = if s0.len() > ilvl { ilvl as int } else { s0.len() as int };
        let mut found = false;
        while self.list_stack.len() > 0
            invariant
                stack_wf(s0),
                self.list_stack@ == s0.subrange(0, self.list_stack@.len() as int),
                keep <= self.list_stack@.len() <= s0.len(),
                !found ==> self.list_stack@.len() == s0.len() || self.list_stack@.len() > ilvl,
                found ==> self.list_stack@.len() == ilvl && s0.len() > ilvl,
                keep == (if s0.len() > ilvl { ilvl as int } else { s0.len() as int }),
                q0 + pop_events(s0, keep) == self.qv() + pop_events(self.list_stack@, keep),
                self.pos == old(self).pos,
                self.list_counters == old(self).list_counters,
                self.pending_preformatted_close == old(self).pending_preformatted_close,
                self.open_styles == old(self).open_styles,
                self.phase == old(self).phase,
                self.data == old(self).data,
            ensures
                self.list_stack@ == s0.subrange(0, keep),
                q0 + pop_events(s0, keep) == self.qv(),
                found == (s0.len() > ilvl),
                self.pos == old(self).pos,
                self.list_counters == old(self).list_counters,
                self.pending_preformatted_close == old(self).pending_preformatted_close,
                self.open_styles == old(self).open_styles,
                self.phase == old(self).phase,
                self.data == old(self).data,
            decreases self.list_stack@.len(),
        {
            let ghost cur = self.list_stack@;
            let top = self.list_stack[self.list_stack.len() - 1];
            assert(top.ilvl == cur.len() - 1);
            if top.ilvl < ilvl {
                assert(cur.len() == keep);
                assert(pop_events(cur, keep) == Seq::<EventView>::empty());
                break;
            }
            let ghost popped_len = cur.len() - 1;
            self.list_stack.pop();
            assert(cur.drop_last() =~= self.list_stack@);
            assert(pop_events(cur, keep) == seq![list_end_view(top.is_ordered)] + pop_events(self.list_stack@, keep));
            self.emit_list_item_end(top.is_ordered);
            assert(self.list_stack@ =~= s0.subrange(0, self.list_stack@.len() as int));
            if top.ilvl == ilvl {
                found = true;
                assert(self.list_stack@.len() == keep);
                assert(pop_events(self.list_stack@, keep) == Seq::<EventView>::empty());
                break;
            }
        }
        proof {
            if self.list_stack@.len() == 0 {
                assert(pop_events(self.list_stack@, keep) == Seq::<EventView>::empty());
            }
        }
        let ghost q1 = self.qv();
        let ghost kept = self.list_stack@;
        let phantom_style = if is_ordered { ListStyleType::Decimal } else { ListStyleType::Disc };
        while (self.list_stack.len() as u64) < (ilvl as u64)
            invariant
                keep <= self.list_stack@.len() <= ilvl || self.list_stack@.len() == keep,
                self.list_stack@.len() >= keep,
                self.list_stack@ == kept + phantom_entries(num_id, keep, self.list_stack@.len() as int, is_ordered),
                kept == s0.subrange(0, keep),
                stack_wf(s0),
                keep <= ilvl,
                self.qv() + phantom_events(num_id, self.list_stack@.len() as int, ilvl as int, is_ordered)
                    == q1 + phantom_events(num_id, keep, ilvl as int, is_ordered),
                phantom_style == crate::document::phantom_style(is_ordered),
                ilvl <= MAX_LIST_LEVEL,
                self.pos == old(self).pos,
                self.list_counters == old(self).list_counters,
                self.pending_preformatted_close == old(self).pending_preformatted_close,
                self.open_styles == old(self).open_styles,
                self.phase == old(self).phase,
                self.data == old(self).data,
            decreases ilvl - self.list_stack@.len(),
        {
            let level = self.list_stack.len() as u32;
            let ghost before = self.list_stack@;
            self.list_stack.push(ListStackEntry { num_id, ilvl: level, is_ordered });
            assert(self.list_stack@ =~= kept + phantom_entries(num_id, keep, self.list_stack@.len() as int, is_ordered));
            self.emit_list_item_start(num_id, level, None, phantom_style, is_ordered);
            assert(phantom_events(num_id, before.len() as int, ilvl as int, is_ordered)
                == seq![list_start_view(num_id, level, None, phantom_style, is_ordered)]
                    + phantom_events(num_id, self.list_stack@.len() as int, ilvl as int, is_ordered));
        }
        assert(phantom_events(num_id, self.list_stack@.len() as int, ilvl as int, is_ordered) == Seq::<EventView>::empty());
        let ghost before = self.list_stack@;
        self.list_stack.push(ListStackEntry { num_id, ilvl, is_ordered });
        proof {
            let s = self.list_stack@;
            assert forall|i: int| 0 <= i < s.len() implies #[trigger] s[i].ilvl == i by {
                if i < keep {
                    assert(s[i] == s0[i]);
                } else if i < ilvl {
                    assert(s[i] == phantom_entries(num_id, keep, ilvl as int, is_ordered)[i - keep]);
                }
            }
        }
        found
    }

    /// Counts one more item at `(num_id, ilvl)` and returns the start value
    /// to show for it.
    fn compute_start(&mut self, num_id: u32, ilvl: u32, sequential: bool) -> (r: Option<u64>)
        ensures
            ({
                let count = match assoc_get(old(self).list_counters@, (num_id, ilvl)) { Some(c) => c, None => 0u64 };
                &&& r == spec_compute_start(count, sequential)
                &&& final(self).counters() == old(self).counters().insert((num_id, ilvl), bumped(count))
            }),
            final(self).pos == old(self).pos,
            final(self).list_stack == old(self).list_stack,
            final(self).queue == old(self).queue,
            final(self).pending_preformatted_close == old(self).pending_preformatted_close,
            final(self).open_styles == old(self).open_styles,
            final(self).phase == old(self).phase,
            final(self).data == old(self).data,
    {
        let ghost before = self.list_counters@;
        let key = (num_id, ilvl);
        let found = find_counter(&self.list_counters, num_id, ilvl);
        let i: usize = match found {
            Some(k) => k,
            None => self.list_counters.len(),
        };
        let count: u64 = if i < self.list_counters.len() { self.list_counters[i].1 } else { 0 };
        proof {
            if i < before.len() {
                lemma_assoc_first(before, i as int, key);
            } else {
                lemma_assoc_absent(before, key);
            }
        }
        let next = count.saturating_add(1);
        if i < self.list_counters.len() {
            proof { lemma_assoc_set(before, i as int, key, next); }
            self.list_counters.set(i, (key, next));
        } else {
            proof { lemma_assoc_push(before, key, next); }
            self.list_counters.push((key, next));
        }
        assert(self.counters() =~= assoc_map(before).insert(key, next));
        if count == 0 || !sequential { Some(next) } else { None }
    }
}


/// Resolved paragraph properties.
#[derive(Debug, Clone, Copy, PartialEq, Eq)]
pub struct ParagraphProps {
    pub alignment: Option<TextAlignment>,
    pub classification: Option<StyleClassification>,
    pub list_info: Option<(u32, u32)>,
}

/// Paragraph properties with nothing set.
pub open spec fn empty_paragraph_props() -> ParagraphProps {
    ParagraphProps { alignment: None, classification: None, list_info: None }
}

/// The list an item's `numPr` puts it in: its `numId`, its level (at most
/// 8), whether the list is ordered and its style; none when numbering says
/// the paragraph is not a list item.
pub open spec fn spec_list_class(n: NumberingView, list_info: Option<(u32, u32)>) -> Option<(u32, u32, bool, ListStyleType)> {
    match list_info {
        None => None,
        Some((num_id, raw)) => {
            let ilvl = if raw > MAX_LIST_LEVEL { MAX_LIST_LEVEL } else { raw };
            let r = spec_resolve(n, num_id, ilvl);
            if r.is_list { Some((num_id, ilvl, r.is_ordered, r.style_type)) } else { None }
        },
    }
}

/// The events that open a paragraph's block.
pub open spec fn block_start_views(props: ParagraphProps, kind: ParagraphBlockKind) -> Seq<EventView> {
    let para = EventView::StartParagraph { alignment: props.alignment, id: None };
    match kind {
        ParagraphBlockKind::Paragraph => seq![para],
        ParagraphBlockKind::Heading { level } => seq![EventView::StartHeading { level, id: None }],
        ParagraphBlockKind::BlockQuote => seq![EventView::StartBlockQuote { id: None }],
        ParagraphBlockKind::Preformatted => seq![EventView::StartPreformatted { id: None, syntax: None }],
        ParagraphBlockKind::OrderedListItem { num_id, ilvl, start, style_type } =>
            seq![list_start_view(num_id, ilvl, start, style_type, true), para],
        ParagraphBlockKind::UnorderedListItem { num_id, ilvl, style_type } =>
            seq![list_start_view(num_id, ilvl, None, style_type, false), para],
    }
}

/// `n` closes of text styles.
pub open spec fn end_text_styles(n: nat) -> Seq<EventView> {
    Seq::new(n, |i: int| EventView::EndTextStyle)
}

/// Whether an event belongs to the structure of a table.
pub open spec fn is_table_structure(e: EventView) -> bool {
    ||| e is StartTable
    ||| e is EndTable
    ||| e is StartTableRow
    ||| e is EndTableRow
    ||| e is StartTableCell
    ||| e is EndTableCell
    ||| e is StartTableHeader
    ||| e is EndTableHeader
}

/// Whether no event of `q` from index `from` on belongs to a table's
/// structure.
pub open spec fn table_free(q: Seq<EventView>, from: int) -> bool {
    forall|i: int| from <= i < q.len() ==> !is_table_structure(#[trigger] q[i])
}

/// Whether an event opens or closes a header cell.
pub open spec fn is_header_cell_event(e: EventView) -> bool {
    e is StartTableHeader || e is EndTableHeader
}

/// Whether no event of `q` from index `from` on opens or closes a header
/// cell.
pub open spec fn no_header_cells(q: Seq<EventView>, from: int) -> bool {
    forall|i: int| from <= i < q.len() ==> !is_header_cell_event(#[trigger] q[i])
}

/// Events added after `mid` keep a queue free of table structure.
proof fn lemma_table_free_step(mid: Seq<EventView>, q: Seq<EventView>, from: int)
    requires
        table_free(mid, from),
        0 <= from,
        mid.is_prefix_of(q),
        table_free(q, mid.len() as int),
    ensures
        table_free(q, from),
{
    assert forall|i: int| from <= i < q.len() implies !is_table_structure(#[trigger] q[i]) by {
        if i < mid.len() {
            assert(mid[i] == q.subrange(0, mid.len() as int)[i]);
        }
    }
}

/// Events added after `mid` that open no header cell keep a queue free of
/// them.
proof fn lemma_no_header_step(mid: Seq<EventView>, q: Seq<EventView>, from: int)
    requires
        no_header_cells(mid, from),
        0 <= from,
        mid.is_prefix_of(q),
        no_header_cells(q, mid.len() as int),
    ensures
        no_header_cells(q, from),
{
    assert forall|i: int| from <= i < q.len() implies !is_header_cell_event(#[trigger] q[i]) by {
        if i < mid.len() {
            assert(mid[i] == q.subrange(0, mid.len() as int)[i]);
        }
    }
}

/// Events free of table structure added after `mid` keep a queue free of
/// header cells.
proof fn lemma_no_header_after_table_free(mid: Seq<EventView>, q: Seq<EventView>, from: int)
    requires
        no_header_cells(mid, from),
        0 <= from,
        mid.is_prefix_of(q),
        table_free(q, mid.len() as int),
    ensures
        no_header_cells(q, from),
{
    lemma_table_free_no_header(q, mid.len() as int);
    lemma_no_header_step(mid, q, from);
}

/// A queue free of table structure opens no header cell.
proof fn lemma_table_free_no_header(q: Seq<EventView>, from: int)
    requires
        table_free(q, from),
    ensures
        no_header_cells(q, from),
{
    assert forall|i: int| from <= i < q.len() implies !is_header_cell_event(#[trigger] q[i]) by {
        assert(!is_table_structure(q[i]));
    }
}

/// Appending events free of table structure.
proof fn lemma_table_free_append(q0: Seq<EventView>, evs: Seq<EventView>)
    requires
        table_free(evs, 0),
    ensures
        table_free(q0 + evs, q0.len() as int),
{
    assert forall|i: int| q0.len() <= i < (q0 + evs).len() implies !is_table_structure(#[trigger] (q0 + evs)[i]) by {
        assert((q0 + evs)[i] == evs[i - q0.len()]);
    }
}

proof fn lemma_concat_table_free(a: Seq<EventView>, b: Seq<EventView>)
    requires
        table_free(a, 0),
        table_free(b, 0),
    ensures
        table_free(a + b, 0),
{
    assert forall|i: int| 0 <= i < (a + b).len() implies !is_table_structure(#[trigger] (a + b)[i]) by {
        if i >= a.len() {
            assert((a + b)[i] == b[i - a.len()]);
        } else {
            assert((a + b)[i] == a[i]);
        }
    }
}

/// The event that closes what the table-structure event `e` opens; none
/// for an event that opens no table, row or cell.
pub open spec fn table_closer(e: EventView) -> Option<EventView> {
    match e {
        EventView::StartTable { .. } => Some(EventView::EndTable),
        EventView::StartTableRow { .. } => Some(EventView::EndTableRow),
        EventView::StartTableCell { .. } => Some(EventView::EndTableCell),
        EventView::StartTableHeader { .. } => Some(EventView::EndTableHeader),
        _ => None,
    }
}

/// Reads the table structure of `q` with `expected` the closes still owed
/// (innermost last): the closes owed afterwards, or none when a close comes
/// that is not the one owed.
pub open spec fn table_nesting(q: Seq<EventView>, expected: Seq<EventView>) -> Option<Seq<EventView>>
    decreases q.len(),
{
    if q.len() == 0 {
        Some(expected)
    } else {
        let e = q[0];
        match table_closer(e) {
            Some(c) => table_nesting(q.drop_first(), expected.push(c)),
            None => if !is_table_structure(e) {
                table_nesting(q.drop_first(), expected)
            } else if expected.len() > 0 && expected.last() == e {
                table_nesting(q.drop_first(), expected.drop_last())
            } else {
                None
            },
        }
    }
}

/// Whether every table, row and cell that `q` opens is closed in `q`, the
/// innermost first, and `q` closes nothing it did not open.
pub open spec fn table_nested(q: Seq<EventView>) -> bool {
    table_nesting(q, Seq::empty()) == Some(Seq::<EventView>::empty())
}

/// Reading `a + b` reads `a`, then `b` from where `a` left the owed closes.
pub proof fn lemma_nesting_concat(a: Seq<EventView>, b: Seq<EventView>, expected: Seq<EventView>)
    ensures
        table_nesting(a + b, expected) == match table_nesting(a, expected) {
            Some(t) => table_nesting(b, t),
            None => None,
        },
    decreases a.len(),
{
    if a.len() == 0 {
        assert(a + b =~= b);
    } else {
        assert((a + b).drop_first() =~= a.drop_first() + b);
        assert((a + b)[0] == a[0]);
        let e = a[0];
        match table_closer(e) {
            Some(c) => lemma_nesting_concat(a.drop_first(), b, expected.push(c)),
            None => if !is_table_structure(e) {
                lemma_nesting_concat(a.drop_first(), b, expected);
            } else if expected.len() > 0 && expected.last() == e {
                lemma_nesting_concat(a.drop_first(), b, expected.drop_last());
            },
        }
    }
}

/// Closes owed from further out do not change how `q` reads.
proof fn lemma_nesting_extend(q: Seq<EventView>, expected: Seq<EventView>, outer: Seq<EventView>)
    requires
        table_nesting(q, expected) is Some,
    ensures
        table_nesting(q, outer + expected) == Some(outer + table_nesting(q, expected)->Some_0),
    decreases q.len(),
{
    if q.len() > 0 {
        let e = q[0];
        match table_closer(e) {
            Some(c) => {
                assert((outer + expected).push(c) =~= outer + expected.push(c));
                lemma_nesting_extend(q.drop_first(), expected.push(c), outer);
            },
            None => if !is_table_structure(e) {
                lemma_nesting_extend(q.drop_first(), expected, outer);
            } else {
                assert((outer + expected).last() == expected.last());
                assert((outer + expected).drop_last() =~= outer + expected.drop_last());
                lemma_nesting_extend(q.drop_first(), expected.drop_last(), outer);
            },
        }
    }
}

/// Events of no table structure leave the owed closes as they are.
proof fn lemma_table_free_nesting(q: Seq<EventView>, expected: Seq<EventView>)
    requires
        table_free(q, 0),
    ensures
        table_nesting(q, expected) == Some(expected),
    decreases q.len(),
{
    if q.len() > 0 {
        assert(!is_table_structure(q[0]));
        assert(table_free(q.drop_first(), 0)) by {
            assert forall|i: int| 0 <= i < q.drop_first().len() implies !is_table_structure(#[trigger] q.drop_first()[i]) by {
                assert(q.drop_first()[i] == q[i + 1]);
            }
        }
        lemma_table_free_nesting(q.drop_first(), expected);
    }
}

/// The queue grew from `mid` to `q`: what its events from `from` owe is
/// what `q`'s events past `mid` leave of what `mid`'s owed.
proof fn lemma_nesting_step(from: int, mid: Seq<EventView>, q: Seq<EventView>, owed: Seq<EventView>)
    requires
        0 <= from <= mid.len(),
        mid.is_prefix_of(q),
        table_nesting(mid.skip(from), Seq::empty()) == Some(owed),
    ensures
        table_nesting(q.skip(from), Seq::empty()) == table_nesting(q.skip(mid.len() as int), owed),
{
    assert forall|i: int| 0 <= i < mid.len() implies mid[i] == #[trigger] q[i] by {
        assert(mid[i] == q.subrange(0, mid.len() as int)[i]);
    }
    assert(q.skip(from) =~= mid.skip(from) + q.skip(mid.len() as int));
    lemma_nesting_concat(mid.skip(from), q.skip(mid.len() as int), Seq::empty());
}

/// Events of no table structure past `mid` keep what is owed.
proof fn lemma_nesting_free_step(from: int, mid: Seq<EventView>, q: Seq<EventView>, owed: Seq<EventView>)
    requires
        0 <= from <= mid.len(),
        mid.is_prefix_of(q),
        table_nesting(mid.skip(from), Seq::empty()) == Some(owed),
        table_free(q, mid.len() as int),
    ensures
        table_nesting(q.skip(from), Seq::empty()) == Some(owed),
{
    lemma_nesting_step(from, mid, q, owed);
    assert(table_free(q.skip(mid.len() as int), 0)) by {
        assert forall|i: int| 0 <= i < q.skip(mid.len() as int).len()
            implies !is_table_structure(#[trigger] q.skip(mid.len() as int)[i]) by {
            assert(q.skip(mid.len() as int)[i] == q[i + mid.len()]);
        }
    }
    lemma_table_free_nesting(q.skip(mid.len() as int), owed);
}

/// Nested events past `mid` keep what is owed.
proof fn lemma_nesting_nested_step(from: int, mid: Seq<EventView>, q: Seq<EventView>, owed: Seq<EventView>)
    requires
        0 <= from <= mid.len(),
        mid.is_prefix_of(q),
        table_nesting(mid.skip(from), Seq::empty()) == Some(owed),
        table_nested(q.skip(mid.len() as int)),
    ensures
        table_nesting(q.skip(from), Seq::empty()) == Some(owed),
{
    lemma_nesting_step(from, mid, q, owed);
    lemma_nesting_extend(q.skip(mid.len() as int), Seq::empty(), owed);
    assert(owed + Seq::<EventView>::empty() =~= owed);
}

/// One event past `mid`.
proof fn lemma_nesting_push(from: int, mid: Seq<EventView>, e: EventView, owed: Seq<EventView>)
    requires
        0 <= from <= mid.len(),
        table_nesting(mid.skip(from), Seq::empty()) == Some(owed),
    ensures
        table_nesting(mid.push(e).skip(from), Seq::empty()) == table_nesting(seq![e], owed),
{
    lemma_nesting_step(from, mid, mid.push(e), owed);
    assert(mid.push(e).skip(mid.len() as int) =~= seq![e]);
}

/// What one event does to what is owed.
proof fn lemma_nesting_one(e: EventView, owed: Seq<EventView>)
    ensures
        table_nesting(seq![e], owed) == match table_closer(e) {
            Some(c) => Some(owed.push(c)),
            None => if !is_table_structure(e) {
                Some(owed)
            } else if owed.len() > 0 && owed.last() == e {
                Some(owed.drop_last())
            } else {
                None
            },
        },
{
    reveal_with_fuel(table_nesting, 2);
    assert(seq![e].drop_first() =~= Seq::<EventView>::empty());
}

/// Nothing past the end of `q` owes anything.
proof fn lemma_nesting_at_end(q: Seq<EventView>)
    ensures
        table_nesting(q.skip(q.len() as int), Seq::empty()) == Some(Seq::<EventView>::empty()),
{
    assert(q.skip(q.len() as int) =~= Seq::<EventView>::empty());
}

/// A cell opened after `q0` owes its close.
proof fn lemma_nesting_cell_open(q0: Seq<EventView>, is_header: bool, colspan: Option<u32>)
    ensures
        table_nesting(q0.push(cell_start_view(is_header, colspan)).skip(q0.len() as int), Seq::empty())
            == Some(seq![cell_end_view(is_header)]),
{
    lemma_nesting_at_end(q0);
    lemma_nesting_push(q0.len() as int, q0, cell_start_view(is_header, colspan), Seq::empty());
    lemma_nesting_one(cell_start_view(is_header, colspan), Seq::empty());
    assert(Seq::<EventView>::empty().push(cell_end_view(is_header)) =~= seq![cell_end_view(is_header)]);
}

/// An event of no table structure past `q` keeps what is owed.
proof fn lemma_nesting_push_free(from: int, q: Seq<EventView>, e: EventView, owed: Seq<EventView>)
    requires
        0 <= from <= q.len(),
        table_nesting(q.skip(from), Seq::empty()) == Some(owed),
        !is_table_structure(e),
    ensures
        table_nesting(q.push(e).skip(from), Seq::empty()) == Some(owed),
{
    lemma_nesting_push(from, q, e, owed);
    lemma_nesting_one(e, owed);
}

/// The close owed last, past `q`, pays it.
proof fn lemma_nesting_push_close(from: int, q: Seq<EventView>, e: EventView, owed: Seq<EventView>)
    requires
        0 <= from <= q.len(),
        table_nesting(q.skip(from), Seq::empty()) == Some(owed.push(e)),
        is_table_structure(e),
        table_closer(e) is None,
    ensures
        table_nesting(q.push(e).skip(from), Seq::empty()) == Some(owed),
{
    lemma_nesting_push(from, q, e, owed.push(e));
    lemma_nesting_one(e, owed.push(e));
    assert(owed.push(e).drop_last() =~= owed);
}

/// An opening event past `q` owes its close.
proof fn lemma_nesting_push_open(from: int, q: Seq<EventView>, e: EventView, owed: Seq<EventView>)
    requires
        0 <= from <= q.len(),
        table_nesting(q.skip(from), Seq::empty()) == Some(owed),
        table_closer(e) is Some,
    ensures
        table_nesting(q.push(e).skip(from), Seq::empty()) == Some(owed.push(table_closer(e)->Some_0)),
{
    lemma_nesting_push(from, q, e, owed);
    lemma_nesting_one(e, owed);
}

/// Events of no table structure are nested.
proof fn lemma_table_free_nested(q: Seq<EventView>, from: int)
    requires
        0 <= from <= q.len(),
        table_free(q, from),
    ensures
        table_nested(q.skip(from)),
{
    assert(table_free(q.skip(from), 0)) by {
        assert forall|i: int| 0 <= i < q.skip(from).len() implies !is_table_structure(#[trigger] q.skip(from)[i]) by {
            assert(q.skip(from)[i] == q[i + from]);
        }
    }
    lemma_table_free_nesting(q.skip(from), Seq::empty());
}

/// Nested events after nested events.
proof fn lemma_nested_concat(a: Seq<EventView>, b: Seq<EventView>)
    requires
        table_nested(a),
        table_nested(b),
    ensures
        table_nested(a + b),
{
    lemma_nesting_concat(a, b, Seq::empty());
}

/// A queue grown from `q0` to `q` with nested events, after nested events `h`.
proof fn lemma_nested_grow(h: Seq<EventView>, q0: Seq<EventView>, q: Seq<EventView>)
    requires
        q0.is_prefix_of(q),
        table_nested(h + q0),
        table_nested(q.skip(q0.len() as int)),
    ensures
        table_nested(h + q),
{
    assert forall|i: int| 0 <= i < q0.len() implies q0[i] == #[trigger] q[i] by {
        assert(q0[i] == q.subrange(0, q0.len() as int)[i]);
    }
    assert(h + q =~= (h + q0) + q.skip(q0.len() as int));
    lemma_nested_concat(h + q0, q.skip(q0.len() as int));
}

/// Reading `q` as `table_nesting` does, whether every cell it opens while
/// `depth` closes are owed is a header cell when `is_header`, a data cell
/// otherwise. The reading stops at a close that is not owed.
pub open spec fn cells_at_depth(q: Seq<EventView>, expected: Seq<EventView>, depth: nat, is_header: bool) -> bool
    decreases q.len(),
{
    if q.len() == 0 {
        true
    } else {
        let e = q[0];
        match table_closer(e) {
            Some(c) => (!(expected.len() == depth && (e is StartTableCell || e is StartTableHeader)) || opens_cell(e, is_header))
                && cells_at_depth(q.drop_first(), expected.push(c), depth, is_header),
            None => if !is_table_structure(e) {
                cells_at_depth(q.drop_first(), expected, depth, is_header)
            } else if expected.len() > 0 && expected.last() == e {
                cells_at_depth(q.drop_first(), expected.drop_last(), depth, is_header)
            } else {
                true
            },
        }
    }
}

/// Reading `a + b` for cells reads `a`, then `b` from where `a` left off.
proof fn lemma_cells_concat(a: Seq<EventView>, b: Seq<EventView>, expected: Seq<EventView>, depth: nat, h: bool)
    ensures
        cells_at_depth(a + b, expected, depth, h) == (cells_at_depth(a, expected, depth, h) && match table_nesting(a, expected) {
            Some(t) => cells_at_depth(b, t, depth, h),
            None => true,
        }),
    decreases a.len(),
{
    if a.len() == 0 {
        assert(a + b =~= b);
    } else {
        assert((a + b).drop_first() =~= a.drop_first() + b);
        assert((a + b)[0] == a[0]);
        let e = a[0];
        match table_closer(e) {
            Some(c) => lemma_cells_concat(a.drop_first(), b, expected.push(c), depth, h),
            None => if !is_table_structure(e) {
                lemma_cells_concat(a.drop_first(), b, expected, depth, h);
            } else if expected.len() > 0 && expected.last() == e {
                lemma_cells_concat(a.drop_first(), b, expected.drop_last(), depth, h);
            },
        }
    }
}

/// Events of no table structure open no cell.
proof fn lemma_cells_table_free(q: Seq<EventView>, expected: Seq<EventView>, depth: nat, h: bool)
    requires
        table_free(q, 0),
    ensures
        cells_at_depth(q, expected, depth, h),
    decreases q.len(),
{
    if q.len() > 0 {
        assert(!is_table_structure(q[0]));
        assert(table_free(q.drop_first(), 0)) by {
            assert forall|i: int| 0 <= i < q.drop_first().len() implies !is_table_structure(#[trigger] q.drop_first()[i]) by {
                assert(q.drop_first()[i] == q[i + 1]);
            }
        }
        lemma_cells_table_free(q.drop_first(), expected, depth, h);
    }
}

/// Nested events read under more than `depth` owed closes open no cell at
/// `depth`.
proof fn lemma_cells_deep(q: Seq<EventView>, inner: Seq<EventView>, outer: Seq<EventView>, depth: nat, h: bool)
    requires
        table_nesting(q, inner) is Some,
        depth < outer.len(),
    ensures
        cells_at_depth(q, outer + inner, depth, h),
    decreases q.len(),
{
    if q.len() > 0 {
        let e = q[0];
        match table_closer(e) {
            Some(c) => {
                assert((outer + inner).push(c) =~= outer + inner.push(c));
                lemma_cells_deep(q.drop_first(), inner.push(c), outer, depth, h);
            },
            None => if !is_table_structure(e) {
                lemma_cells_deep(q.drop_first(), inner, outer, depth, h);
            } else {
                assert((outer + inner).last() == inner.last());
                assert((outer + inner).drop_last() =~= outer + inner.drop_last());
                lemma_cells_deep(q.drop_first(), inner.drop_last(), outer, depth, h);
            },
        }
    }
}

/// Closes owed from further out shift the depth at which cells count.
proof fn lemma_cells_shift(q: Seq<EventView>, inner: Seq<EventView>, outer: Seq<EventView>, depth: nat, h: bool)
    requires
        table_nesting(q, inner) is Some,
    ensures
        cells_at_depth(q, outer + inner, depth + outer.len(), h) == cells_at_depth(q, inner, depth, h),
    decreases q.len(),
{
    if q.len() > 0 {
        let e = q[0];
        match table_closer(e) {
            Some(c) => {
                assert((outer + inner).push(c) =~= outer + inner.push(c));
                lemma_cells_shift(q.drop_first(), inner.push(c), outer, depth, h);
            },
            None => if !is_table_structure(e) {
                lemma_cells_shift(q.drop_first(), inner, outer, depth, h);
            } else {
                assert((outer + inner).last() == inner.last());
                assert((outer + inner).drop_last() =~= outer + inner.drop_last());
                lemma_cells_shift(q.drop_first(), inner.drop_last(), outer, depth, h);
            },
        }
    }
}

/// The queue grew from `mid` to `q`: how its events from `from` read for
/// cells.
proof fn lemma_cells_step(from: int, mid: Seq<EventView>, q: Seq<EventView>, owed: Seq<EventView>, depth: nat, h: bool)
    requires
        0 <= from <= mid.len(),
        mid.is_prefix_of(q),
        table_nesting(mid.skip(from), Seq::empty()) == Some(owed),
        cells_at_depth(mid.skip(from), Seq::empty(), depth, h),
        cells_at_depth(q.skip(mid.len() as int), owed, depth, h),
    ensures
        cells_at_depth(q.skip(from), Seq::empty(), depth, h),
{
    assert forall|i: int| 0 <= i < mid.len() implies mid[i] == #[trigger] q[i] by {
        assert(mid[i] == q.subrange(0, mid.len() as int)[i]);
    }
    assert(q.skip(from) =~= mid.skip(from) + q.skip(mid.len() as int));
    lemma_cells_concat(mid.skip(from), q.skip(mid.len() as int), Seq::empty(), depth, h);
}

/// What one event does for cells.
proof fn lemma_cells_one(e: EventView, owed: Seq<EventView>, depth: nat, h: bool)
    ensures
        cells_at_depth(seq![e], owed, depth, h) == match table_closer(e) {
            Some(c) => !(owed.len() == depth && (e is StartTableCell || e is StartTableHeader)) || opens_cell(e, h),
            None => true,
        },
{
    reveal_with_fuel(cells_at_depth, 2);
    assert(seq![e].drop_first() =~= Seq::<EventView>::empty());
}

/// Events of no table structure past `mid` open no cell.
proof fn lemma_cells_free_step(from: int, mid: Seq<EventView>, q: Seq<EventView>, owed: Seq<EventView>, depth: nat, h: bool)
    requires
        0 <= from <= mid.len(),
        mid.is_prefix_of(q),
        table_nesting(mid.skip(from), Seq::empty()) == Some(owed),
        cells_at_depth(mid.skip(from), Seq::empty(), depth, h),
        table_free(q, mid.len() as int),
    ensures
        cells_at_depth(q.skip(from), Seq::empty(), depth, h),
{
    assert(table_free(q.skip(mid.len() as int), 0)) by {
        assert forall|i: int| 0 <= i < q.skip(mid.len() as int).len()
            implies !is_table_structure(#[trigger] q.skip(mid.len() as int)[i]) by {
            assert(q.skip(mid.len() as int)[i] == q[i + mid.len()]);
        }
    }
    lemma_cells_table_free(q.skip(mid.len() as int), owed, depth, h);
    lemma_cells_step(from, mid, q, owed, depth, h);
}

/// One event past `mid`, for cells.
proof fn lemma_cells_push(from: int, mid: Seq<EventView>, e: EventView, owed: Seq<EventView>, depth: nat, h: bool)
    requires
        0 <= from <= mid.len(),
        table_nesting(mid.skip(from), Seq::empty()) == Some(owed),
        cells_at_depth(mid.skip(from), Seq::empty(), depth, h),
        table_closer(e) is Some ==> (!(owed.len() == depth && (e is StartTableCell || e is StartTableHeader)) || opens_cell(e, h)),
    ensures
        cells_at_depth(mid.push(e).skip(from), Seq::empty(), depth, h),
{
    lemma_cells_one(e, owed, depth, h);
    assert(mid.push(e).skip(mid.len() as int) =~= seq![e]);
    lemma_cells_step(from, mid, mid.push(e), owed, depth, h);
}

/// Nothing past the end of `q` opens a cell.
proof fn lemma_cells_at_end(q: Seq<EventView>, depth: nat, h: bool)
    ensures
        cells_at_depth(q.skip(q.len() as int), Seq::empty(), depth, h),
{
    assert(q.skip(q.len() as int) =~= Seq::<EventView>::empty());
}

/// A cell opened after `q0` opens as a cell of its kind.
proof fn lemma_cells_cell_open(q0: Seq<EventView>, is_header: bool, colspan: Option<u32>)
    ensures
        cells_at_depth(q0.push(cell_start_view(is_header, colspan)).skip(q0.len() as int), Seq::empty(), 0, is_header),
{
    lemma_nesting_at_end(q0);
    lemma_cells_at_end(q0, 0, is_header);
    assert(opens_cell(cell_start_view(is_header, colspan), is_header));
    lemma_cells_push(q0.len() as int, q0, cell_start_view(is_header, colspan), Seq::empty(), 0, is_header);
}

proof fn lemma_reconcile_table_free(s: Seq<ListStackEntry>, num_id: u32, ilvl: u32, is_ordered: bool)
    ensures
        table_free(spec_reconcile(s, num_id, ilvl, is_ordered).1, 0),
{
    let keep = if s.len() > ilvl { ilvl as int } else { s.len() as int };
    lemma_pop_events_table_free(s, keep);
    lemma_phantom_events_table_free(num_id, keep, ilvl as int, is_ordered);
    lemma_concat_table_free(pop_events(s, keep), phantom_events(num_id, keep, ilvl as int, is_ordered));
}

proof fn lemma_pop_events_table_free(s: Seq<ListStackEntry>, down_to: int)
    ensures
        table_free(pop_events(s, down_to), 0),
    decreases s.len(),
{
    if !(s.len() <= down_to || s.len() == 0) {
        lemma_pop_events_table_free(s.drop_last(), down_to);
        let rest = pop_events(s.drop_last(), down_to);
        let e = list_end_view(s.last().is_ordered);
        assert forall|i: int| 0 <= i < (seq![e] + rest).len() implies !is_table_structure(#[trigger] (seq![e] + rest)[i]) by {
            if i > 0 {
                assert((seq![e] + rest)[i] == rest[i - 1]);
            }
        }
    }
}

proof fn lemma_phantom_events_table_free(num_id: u32, from: int, to: int, is_ordered: bool)
    ensures
        table_free(phantom_events(num_id, from, to, is_ordered), 0),
    decreases to - from,
{
    if from < to {
        lemma_phantom_events_table_free(num_id, from + 1, to, is_ordered);
        let rest = phantom_events(num_id, from + 1, to, is_ordered);
        let e = list_start_view(num_id, from as u32, None, phantom_style(is_ordered), is_ordered);
        assert forall|i: int| 0 <= i < (seq![e] + rest).len() implies !is_table_structure(#[trigger] (seq![e] + rest)[i]) by {
            if i > 0 {
                assert((seq![e] + rest)[i] == rest[i - 1]);
            }
        }
    }
}

/// How resolving a paragraph's block with `props` takes the parser from
/// `a` to `b` and what it returns: see `resolve_paragraph_block_kind`.
spec fn block_resolution(a: Parser, b: Parser, props: ParagraphProps, r: (ParagraphBlockKind, bool)) -> bool {
    &&& (a.pending_preformatted_close && props.classification == Some(StyleClassification::Code) ==> {
            &&& r == (ParagraphBlockKind::Preformatted, true)
            &&& b.qv() == a.qv().push(EventView::LineBreak)
            &&& b.list_stack == a.list_stack
            &&& b.list_counters == a.list_counters
        })
    &&& (!(a.pending_preformatted_close && props.classification == Some(StyleClassification::Code)) ==> {
            let q1 = if a.pending_preformatted_close { a.qv().push(EventView::EndPreformatted) } else { a.qv() };
            &&& !r.1
            &&& match props.classification {
                Some(StyleClassification::Heading { level }) => r.0 == ParagraphBlockKind::Heading { level }
                    && b.list_stack@.len() == 0 && b.qv() == q1 + pop_events(a.list_stack@, 0)
                    && b.list_counters == a.list_counters,
                Some(StyleClassification::BlockQuote) => r.0 == ParagraphBlockKind::BlockQuote
                    && b.list_stack@.len() == 0 && b.qv() == q1 + pop_events(a.list_stack@, 0)
                    && b.list_counters == a.list_counters,
                Some(StyleClassification::Code) => r.0 == ParagraphBlockKind::Preformatted
                    && b.list_stack@.len() == 0 && b.qv() == q1 + pop_events(a.list_stack@, 0)
                    && b.list_counters == a.list_counters,
                None => match spec_list_class(a.data.numbering@, props.list_info) {
                    None => r.0 == ParagraphBlockKind::Paragraph && b.qv() == q1
                        && b.list_stack == a.list_stack && b.list_counters == a.list_counters,
                    Some((num_id, ilvl, is_ordered, style_type)) => {
                        let (s2, evs, sequential) = spec_reconcile(a.list_stack@, num_id, ilvl, is_ordered);
                        let count = match assoc_get(a.list_counters@, (num_id, ilvl)) { Some(c) => c, None => 0u64 };
                        &&& b.list_stack@ == s2
                        &&& b.qv() == q1 + evs
                        &&& b.counters() == a.counters().insert((num_id, ilvl), bumped(count))
                        &&& r.0 == (if is_ordered {
                            ParagraphBlockKind::OrderedListItem { num_id, ilvl, start: spec_compute_start(count, sequential), style_type }
                        } else {
                            ParagraphBlockKind::UnorderedListItem { num_id, ilvl, style_type }
                        })
                    },
                },
            }
        })
    &&& !b.pending_preformatted_close
    &&& b.pos == a.pos
    &&& b.open_styles == a.open_styles
    &&& b.phase == a.phase
    &&& b.data == a.data
}

impl Parser {
    fn flush_pending_preformatted_close(&mut self)
        ensures
            final(self).qv() == (if old(self).pending_preformatted_close { old(self).qv().push(EventView::EndPreformatted) } else { old(self).qv() }),
            table_free(final(self).qv(), old(self).qv().len() as int),
            !final(self).pending_preformatted_close,
            final(self).pos == old(self).pos,
            final(self).list_stack == old(self).list_stack,
            final(self).list_counters == old(self).list_counters,
            final(self).open_styles == old(self).open_styles,
            final(self).phase == old(self).phase,
            final(self).data == old(self).data,
    {
        if self.pending_preformatted_close {
            self.emit(Event::EndPreformatted);
            self.pending_preformatted_close = false;
        }
    }

    /// Chooses the block a paragraph opens, closing what it ends: a code
    /// paragraph right after a code block joins it with a line break; other
    /// paragraphs close a pending code block; headings, quotes and code
    /// blocks close open lists; list items reconcile the list stack.
    fn resolve_paragraph_block_kind(&mut self, props: ParagraphProps) -> (r: (ParagraphBlockKind, bool))
        requires
            old(self).wf(),
        ensures
            block_resolution(*old(self), *final(self), props, r),
            final(self).wf(),
            old(self).pending_preformatted_close && props.classification == Some(StyleClassification::Code) ==> {
                &&& r == (ParagraphBlockKind::Preformatted, true)
                &&& final(self).qv() == old(self).qv().push(EventView::LineBreak)
                &&& final(self).list_stack == old(self).list_stack
                &&& final(self).list_counters == old(self).list_counters
            },
            !(old(self).pending_preformatted_close && props.classification == Some(StyleClassification::Code)) ==> {
                let q1 = if old(self).pending_preformatted_close { old(self).qv().push(EventView::EndPreformatted) } else { old(self).qv() };
                &&& !r.1
                &&& match props.classification {
                    Some(StyleClassification::Heading { level }) => r.0 == ParagraphBlockKind::Heading { level }
                        && final(self).list_stack@.len() == 0 && final(self).qv() == q1 + pop_events(old(self).list_stack@, 0)
                        && final(self).list_counters == old(self).list_counters,
                    Some(StyleClassification::BlockQuote) => r.0 == ParagraphBlockKind::BlockQuote
                        && final(self).list_stack@.len() == 0 && final(self).qv() == q1 + pop_events(old(self).list_stack@, 0)
                        && final(self).list_counters == old(self).list_counters,
                    Some(StyleClassification::Code) => r.0 == ParagraphBlockKind::Preformatted
                        && final(self).list_stack@.len() == 0 && final(self).qv() == q1 + pop_events(old(self).list_stack@, 0)
                        && final(self).list_counters == old(self).list_counters,
                    None => match spec_list_class(old(self).data.numbering@, props.list_info) {
                        None => r.0 == ParagraphBlockKind::Paragraph && final(self).qv() == q1
                            && final(self).list_stack == old(self).list_stack && final(self).list_counters == old(self).list_counters,
                        Some((num_id, ilvl, is_ordered, style_type)) => {
                            let (s2, evs, sequential) = spec_reconcile(old(self).list_stack@, num_id, ilvl, is_ordered);
                            let count = match assoc_get(old(self).list_counters@, (num_id, ilvl)) { Some(c) => c, None => 0u64 };
                            &&& final(self).list_stack@ == s2
                            &&& final(self).qv() == q1 + evs
                            &&& final(self).counters() == old(self).counters().insert((num_id, ilvl), bumped(count))
                            &&& r.0 == (if is_ordered {
                                ParagraphBlockKind::OrderedListItem { num_id, ilvl, start: spec_compute_start(count, sequential), style_type }
                            } else {
                                ParagraphBlockKind::UnorderedListItem { num_id, ilvl, style_type }
                            })
                        },
                    },
                }
            },
            !final(self).pending_preformatted_close,
            table_free(final(self).qv(), old(self).qv().len() as int),
            final(self).pos == old(self).pos,
            final(self).open_styles == old(self).open_styles,
            final(self).phase == old(self).phase,
            final(self).data == old(self).data,
    {
        if self.pending_preformatted_close {
            if props.classification == Some(StyleClassification::Code) {
                self.emit(Event::LineBreak);
                self.pending_preformatted_close = false;
                return (ParagraphBlockKind::Preformatted, true);
            }
            self.flush_pending_preformatted_close();
        }
        let ghost mid = self.qv();
        assert(table_free(mid, old(self).qv().len() as int));
        match props.classification {
            Some(StyleClassification::Heading { level }) => {
                self.flush_list_stack();
                proof { lemma_table_free_step(mid, self.qv(), old(self).qv().len() as int); }
                (ParagraphBlockKind::Heading { level }, false)
            },
            Some(StyleClassification::BlockQuote) => {
                self.flush_list_stack();
                proof { lemma_table_free_step(mid, self.qv(), old(self).qv().len() as int); }
                (ParagraphBlockKind::BlockQuote, false)
            },
            Some(StyleClassification::Code) => {
                self.flush_list_stack();
                proof { lemma_table_free_step(mid, self.qv(), old(self).qv().len() as int); }
                (ParagraphBlockKind::Preformatted, false)
            },
            None => {
                let class = match props.list_info {
                    None => None,
                    Some((num_id, raw)) => {
                        let ilvl = if raw > MAX_LIST_LEVEL { MAX_LIST_LEVEL } else { raw };
                        let r = self.data.numbering.resolve(num_id, ilvl);
                        if r.is_list { Some((num_id, ilvl, r.is_ordered, r.style_type)) } else { None }
                    },
                };
                match class {
                    None => (ParagraphBlockKind::Paragraph, false),
                    Some((num_id, ilvl, is_ordered, style_type)) => {
                        let ghost s0 = self.list_stack@;
                        let sequential = self.reconcile_list_stack(num_id, ilvl, is_ordered);
                        proof {
                            lemma_reconcile_table_free(s0, num_id, ilvl, is_ordered);
                            lemma_table_free_append(mid, spec_reconcile(s0, num_id, ilvl, is_ordered).1);
                            lemma_table_free_step(mid, self.qv(), old(self).qv().len() as int);
                        }
                        let start = self.compute_start(num_id, ilvl, sequential);
                        if is_ordered {
                            (ParagraphBlockKind::OrderedListItem { num_id, ilvl, start, style_type }, false)
                        } else {
                            (ParagraphBlockKind::UnorderedListItem { num_id, ilvl, style_type }, false)
                        }
                    },
                }
            },
        }
    }

    /// Emits the start events of a paragraph's block; a plain paragraph first
    /// closes open lists.
    fn emit_paragraph_start_for_block(&mut self, props: ParagraphProps, kind: ParagraphBlockKind)
        requires
            old(self).wf(),
        ensures
            final(self).wf(),
            kind is Paragraph ==> final(self).qv() == old(self).qv() + pop_events(old(self).list_stack@, 0) + block_start_views(props, kind)
                && final(self).list_stack@.len() == 0,
            !(kind is Paragraph) ==> final(self).qv() == old(self).qv() + block_start_views(props, kind)
                && final(self).list_stack == old(self).list_stack,
            table_free(final(self).qv(), old(self).qv().len() as int),
            final(self).pos == old(self).pos,
            final(self).list_counters == old(self).list_counters,
            final(self).pending_preformatted_close == old(self).pending_preformatted_close,
            final(self).open_styles == old(self).open_styles,
            final(self).phase == old(self).phase,
            final(self).data == old(self).data,
    {
        let para = Event::StartParagraph { alignment: props.alignment, id: None };
        match kind {
            ParagraphBlockKind::Paragraph => {
                self.flush_list_stack();
                self.emit(para);
            },
            ParagraphBlockKind::Heading { level } => self.emit(Event::StartHeading { level, id: None }),
            ParagraphBlockKind::BlockQuote => self.emit(Event::StartBlockQuote { id: None }),
            ParagraphBlockKind::Preformatted => self.emit(Event::StartPreformatted { id: None, syntax: None }),
            ParagraphBlockKind::OrderedListItem { num_id, ilvl, start, style_type } => {
                self.emit_list_item_start(num_id, ilvl, start, style_type, true);
                self.emit(para);
            },
            ParagraphBlockKind::UnorderedListItem { num_id, ilvl, style_type } => {
                self.emit_list_item_start(num_id, ilvl, None, style_type, false);
                self.emit(para);
            },
        }
        assert(old(self).qv() + pop_events(old(self).list_stack@, 0) + block_start_views(props, kind) =~= self.qv() || !(kind is Paragraph));
        assert(old(self).qv() + block_start_views(props, kind) =~= self.qv() || kind is Paragraph);
        proof {
            lemma_pop_events_table_free(old(self).list_stack@, 0);
            assert(table_free(block_start_views(props, kind), 0));
            lemma_concat_table_free(pop_events(old(self).list_stack@, 0), block_start_views(props, kind));
            assert(old(self).qv() + pop_events(old(self).list_stack@, 0) + block_start_views(props, kind)
                =~= old(self).qv() + (pop_events(old(self).list_stack@, 0) + block_start_views(props, kind)));
            lemma_table_free_append(old(self).qv(), pop_events(old(self).list_stack@, 0) + block_start_views(props, kind));
            lemma_table_free_append(old(self).qv(), block_start_views(props, kind));
        }
    }

    /// Closes a paragraph's block: open text styles end first; a code block's
    /// end is deferred so that the next code paragraph can join it.
    fn close_paragraph_block(&mut self, kind: ParagraphBlockKind)
        ensures
            final(self).open_styles@.len() == 0,
            table_free(final(self).qv(), old(self).qv().len() as int),
            ({
                let q1 = old(self).qv() + end_text_styles(old(self).open_styles@.len());
                match kind {
                    ParagraphBlockKind::Preformatted => final(self).qv() == q1 && final(self).pending_preformatted_close,
                    ParagraphBlockKind::Heading { .. } => final(self).qv() == q1.push(EventView::EndHeading)
                        && final(self).pending_preformatted_close == old(self).pending_preformatted_close,
                    ParagraphBlockKind::BlockQuote => final(self).qv() == q1.push(EventView::EndBlockQuote)
                        && final(self).pending_preformatted_close == old(self).pending_preformatted_close,
                    _ => final(self).qv() == q1.push(EventView::EndParagraph)
                        && final(self).pending_preformatted_close == old(self).pending_preformatted_close,
                }
            }),
            final(self).pos == old(self).pos,
            final(self).list_stack == old(self).list_stack,
            final(self).list_counters == old(self).list_counters,
            final(self).phase == old(self).phase,
            final(self).data == old(self).data,
    {
        let ghost n0 = self.open_styles@.len();
        let ghost q0 = self.qv();
        while self.open_styles.len() > 0
            invariant
                self.open_styles@.len() <= n0,
                self.qv() == q0 + end_text_styles((n0 - self.open_styles@.len()) as nat),
                self.pending_preformatted_close == old(self).pending_preformatted_close,
                self.pos == old(self).pos,
                self.list_stack == old(self).list_stack,
                self.list_counters == old(self).list_counters,
                self.phase == old(self).phase,
                self.data == old(self).data,
            decreases self.open_styles@.len(),
        {
            self.open_styles.pop();
            self.emit(Event::EndTextStyle);
            assert(self.qv() =~= q0 + end_text_styles((n0 - self.open_styles@.len()) as nat));
        }
        match kind {
            ParagraphBlockKind::Preformatted => {
                self.pending_preformatted_close = true;
            },
            ParagraphBlockKind::Heading { .. } => self.emit(Event::EndHeading),
            ParagraphBlockKind::BlockQuote => self.emit(Event::EndBlockQuote),
            _ => self.emit(Event::EndParagraph),
        }
        proof {
            assert(table_free(end_text_styles(n0), 0));
            lemma_table_free_append(q0, end_text_styles(n0));
        }
    }

    /// An empty `<w:p/>`: a paragraph with default properties and no content.
    fn parse_empty_p(&mut self)
        requires
            old(self).wf(),
        ensures
            final(self).wf(),
            final(self).pos == old(self).pos,
            final(self).phase == old(self).phase,
            final(self).data == old(self).data,
            old(self).qv().is_prefix_of(final(self).qv()),
            closes_block(final(self).qv(), final(self).pending_preformatted_close),
            table_free(final(self).qv(), old(self).qv().len() as int),
    {
        let props = ParagraphProps { alignment: None, classification: None, list_info: None };
        let (kind, started) = self.resolve_paragraph_block_kind(props);
        if !started {
            let ghost mid = self.qv();
            self.emit_paragraph_start_for_block(props, kind);
            proof { lemma_table_free_step(mid, self.qv(), old(self).qv().len() as int); }
        }
        let ghost mid2 = self.qv();
        self.close_paragraph_block(kind);
        proof { lemma_table_free_step(mid2, self.qv(), old(self).qv().len() as int); }
    }
}


/// The `w:val` attribute of a tag, raw.
pub open spec fn val_of(tag: XmlTag) -> Option<Seq<char>> {
    lookup_exact(tag.attrs@, "w:val"@)
}

/// The kinds other than `kind`.
pub open spec fn other_than(kind: TextStyleKind) -> spec_fn(TextStyleKind) -> bool {
    |k: TextStyleKind| k != kind
}

/// `kinds` without `kind`, then with it at the end when `enabled`.
pub open spec fn set_kind(kinds: Seq<TextStyleKind>, kind: TextStyleKind, enabled: bool) -> Seq<TextStyleKind> {
    let kept = kinds.filter(other_than(kind));
    if enabled { kept.push(kind) } else { kept }
}

/// `kinds` without subscript and superscript, then with the one `align` asks for.
pub open spec fn set_vert_align(kinds: Seq<TextStyleKind>, align: VertAlign) -> Seq<TextStyleKind> {
    let kept = kinds.filter(|k: TextStyleKind| k != TextStyleKind::Subscript && k != TextStyleKind::Superscript);
    match align {
        VertAlign::Subscript => kept.push(TextStyleKind::Subscript),
        VertAlign::Superscript => kept.push(TextStyleKind::Superscript),
        VertAlign::Baseline => kept,
    }
}

/// The symbol font named by the first of `w:ascii`, `w:hAnsi`, `w:cs` that
/// names one.
pub open spec fn spec_rfonts_symbol(tag: XmlTag) -> Option<SymbolFont> {
    let a = lookup_exact(tag.attrs@, "w:ascii"@);
    let h = lookup_exact(tag.attrs@, "w:hAnsi"@);
    let c = lookup_exact(tag.attrs@, "w:cs"@);
    if a is Some && spec_font_from_name(a->0) is Some {
        spec_font_from_name(a->0)
    } else if h is Some && spec_font_from_name(h->0) is Some {
        spec_font_from_name(h->0)
    } else if c is Some && spec_font_from_name(c->0) is Some {
        spec_font_from_name(c->0)
    } else {
        None
    }
}

/// Run properties being read from a `<w:rPr>`.
pub struct RunPropertyAccumulator {
    pub kinds: Vec<TextStyleKind>,
    pub text_color: Option<Color>,
    pub mark: Option<Color>,
    pub shade: Option<Color>,
    pub font: Option<SymbolFont>,
}

/// Run properties after `<w:rPr>`: shading stands in for a missing highlight.
pub struct RunProps {
    pub kinds: Vec<TextStyleKind>,
    pub text_color: Option<Color>,
    pub mark: Option<Color>,
    pub font: Option<SymbolFont>,
}

/// The styles a run opens, in order: its kinds, then its color, then its mark.
pub open spec fn spec_run_styles(p: Option<&RunProps>) -> Seq<TextStyleKind> {
    match p {
        None => Seq::empty(),
        Some(p) => {
            let s1 = if p.text_color is Some { p.kinds@.push(TextStyleKind::TextColor(p.text_color->0)) } else { p.kinds@ };
            if p.mark is Some { s1.push(TextStyleKind::Mark(p.mark->0)) } else { s1 }
        },
    }
}

fn set_resolved_run_kind(kinds: &mut Vec<TextStyleKind>, kind: TextStyleKind, enabled: bool)
    ensures
        final(kinds)@ == set_kind(old(kinds)@, kind, enabled),
{
    let ghost k0 = kinds@;
    let mut out: Vec<TextStyleKind> = Vec::new();
    let mut i: usize = 0;
    while i < kinds.len()
        invariant
            kinds@ == k0,
            i <= k0.len(),
            out@ == k0.take(i as int).filter(other_than(kind)),
        decreases k0.len() - i,
    {
        let k = kinds[i];
        assert(k0.take(i + 1).drop_last() =~= k0.take(i as int));
        assert(k0.take(i + 1).last() == k);
        proof { reveal(Seq::filter); }
        if k != kind {
            out.push(k);
        }
        i = i + 1;
    }
    assert(k0.take(k0.len() as int) =~= k0);
    let ghost kept = k0.filter(other_than(kind));
    assert(out@ == kept);
    if enabled {
        out.push(kind);
    }
    assert(out@ == set_kind(k0, kind, enabled));
    *kinds = out;
}

fn set_resolved_vertical_alignment(kinds: &mut Vec<TextStyleKind>, align: VertAlign)
    ensures
        final(kinds)@ == set_vert_align(old(kinds)@, align),
{
    let ghost k0 = kinds@;
    let mut out: Vec<TextStyleKind> = Vec::new();
    let mut i: usize = 0;
    while i < kinds.len()
        invariant
            kinds@ == k0,
            i <= k0.len(),
            out@ == k0.take(i as int).filter(|k: TextStyleKind| k != TextStyleKind::Subscript && k != TextStyleKind::Superscript),
        decreases k0.len() - i,
    {
        let k = kinds[i];
        assert(k0.take(i + 1).drop_last() =~= k0.take(i as int));
        assert(k0.take(i + 1).last() == k);
        proof { reveal(Seq::filter); }
        if k != TextStyleKind::Subscript && k != TextStyleKind::Superscript {
            out.push(k);
        }
        i = i + 1;
    }
    assert(k0.take(k0.len() as int) =~= k0);
    match align {
        VertAlign::Subscript => out.push(TextStyleKind::Subscript),
        VertAlign::Superscript => out.push(TextStyleKind::Superscript),
        VertAlign::Baseline => {},
    }
    *kinds = out;
}

/// The raw `w:val` of a tag.
fn read_val_attribute(tag: &XmlTag) -> (r: Option<String>)
    ensures
        match val_of(*tag) {
            Some(v) => r is Some && r->0@ == v,
            None => r is None,
        },
{
    exact_attr(tag, "w:val")
}

fn opt_str(o: &Option<String>) -> (r: Option<&str>)
    ensures
        crate::events::opt_chars(r) == crate::events::opt_string_chars(*o),
{
    match o {
        Some(s) => Some(s.as_str()),
        None => None,
    }
}

fn read_rfonts_symbol(tag: &XmlTag) -> (r: Option<SymbolFont>)
    ensures
        r == spec_rfonts_symbol(*tag),
{
    if let Some(name) = exact_attr(tag, "w:ascii") {
        if let Some(f) = SymbolFont::from_name(name.as_str()) {
            return Some(f);
        }
    }
    if let Some(name) = exact_attr(tag, "w:hAnsi") {
        if let Some(f) = SymbolFont::from_name(name.as_str()) {
            return Some(f);
        }
    }
    if let Some(name) = exact_attr(tag, "w:cs") {
        if let Some(f) = SymbolFont::from_name(name.as_str()) {
            return Some(f);
        }
    }
    None
}

fn contains_kind(v: &Vec<TextStyleKind>, kind: TextStyleKind) -> (r: bool)
    ensures
        r == v@.contains(kind),
{
    let mut i: usize = 0;
    while i < v.len()
        invariant
            i <= v@.len(),
            forall|j: int| 0 <= j < i ==> v@[j] != kind,
        decreases v@.len() - i,
    {
        if v[i] == kind {
            return true;
        }
        i = i + 1;
    }
    false
}

/// The run styles of `p`, in opening order.
fn resolved_run_styles(p: Option<&RunProps>) -> (r: Vec<TextStyleKind>)
    ensures
        r@ == spec_run_styles(p),
{
    match p {
        None => Vec::new(),
        Some(p) => {
            let mut out: Vec<TextStyleKind> = Vec::new();
            let mut i: usize = 0;
            while i < p.kinds.len()
                invariant
                    i <= p.kinds@.len(),
                    out@ == p.kinds@.take(i as int),
                decreases p.kinds@.len() - i,
            {
                out.push(p.kinds[i]);
                i = i + 1;
                assert(out@ =~= p.kinds@.take(i as int));
            }
            assert(p.kinds@.take(p.kinds@.len() as int) =~= p.kinds@);
            if let Some(c) = p.text_color {
                out.push(TextStyleKind::TextColor(c));
            }
            if let Some(m) = p.mark {
                out.push(TextStyleKind::Mark(m));
            }
            out
        },
    }
}

/// The key a character of a symbol-font run has in the font's table: the
/// code point less `0xF000` for the private-use range `U+F020..=U+F0FF`, the
/// code point itself for `U+0020..=U+00FF`, none otherwise.
pub open spec fn symbol_key(c: char) -> Option<u8> {
    let cp = c as u32;
    if 0xF020 <= cp && cp <= 0xF0FF {
        Some((cp - 0xF000) as u8)
    } else if 0x20 <= cp && cp <= 0xFF {
        Some(cp as u8)
    } else {
        None
    }
}

/// The text a symbol font run shows: each character mapped through the
/// font's table, characters without a mapping dropped.
pub open spec fn spec_symbol_text(font: SymbolFont, s: Seq<char>) -> Seq<char>
    decreases s.len(),
{
    if s.len() == 0 {
        Seq::empty()
    } else {
        let rest = spec_symbol_text(font, s.drop_last());
        match symbol_key(s.last()) {
            Some(k) => match spec_font_convert(font, k) {
                Some(m) => rest.push(m),
                None => rest,
            },
            None => rest,
        }
    }
}

/// The text a run shows: mapped through its symbol font, if it has one.
pub open spec fn spec_run_text(p: Option<&RunProps>, s: Seq<char>) -> Seq<char> {
    match p {
        Some(p) => match p.font {
            Some(f) => spec_symbol_text(f, s),
            None => s,
        },
        None => s,
    }
}

fn normalize_symbol_text(p: Option<&RunProps>, text: String) -> (r: String)
    ensures
        r@ == spec_run_text(p, text@),
{
    let font = match p {
        Some(p) => match p.font {
            Some(f) => f,
            None => {
                return text;
            },
        },
        None => {
            return text;
        },
    };
    let cs = chars_of(text.as_str());
    let mut out: Vec<char> = Vec::new();
    let mut i: usize = 0;
    while i < cs.len()
        invariant
            i <= cs@.len(),
            cs@ == text@,
            out@ == spec_symbol_text(font, cs@.take(i as int)),
        decreases cs@.len() - i,
    {
        let c = cs[i];
        assert(cs@.take(i + 1).drop_last() =~= cs@.take(i as int));
        let cp = c as u32;
        let key: Option<u8> = if 0xF020 <= cp && cp <= 0xF0FF {
            Some((cp - 0xF000) as u8)
        } else if 0x20 <= cp && cp <= 0xFF {
            Some(cp as u8)
        } else {
            None
        };
        if let Some(k) = key {
            if let Some(m) = font.convert(k) {
                out.push(m);
            }
        }
        i = i + 1;
    }
    assert(cs@.take(cs@.len() as int) =~= cs@);
    string_from_chars(out.as_slice())
}


/// The plain content of a [`RunPropertyAccumulator`].
pub struct RunAccView {
    pub kinds: Seq<TextStyleKind>,
    pub text_color: Option<Color>,
    pub mark: Option<Color>,
    pub shade: Option<Color>,
    pub font: Option<SymbolFont>,
}

impl View for RunPropertyAccumulator {
    type V = RunAccView;

    open spec fn view(&self) -> RunAccView {
        RunAccView { kinds: self.kinds@, text_color: self.text_color, mark: self.mark, shade: self.shade, font: self.font }
    }
}

/// What one child of `<w:rPr>` does to the run properties, and whether it
/// is one the reader knows.
pub open spec fn spec_apply_rpr(styles: Seq<crate::styles::StyleView>, local: Seq<char>, tag: XmlTag, a: RunAccView) -> (RunAccView, bool) {
    let val = val_of(tag);
    if local == "b"@ {
        (RunAccView { kinds: set_kind(a.kinds, TextStyleKind::Bold, spec_parse_on_off(val)), ..a }, true)
    } else if local == "i"@ {
        (RunAccView { kinds: set_kind(a.kinds, TextStyleKind::Italic, spec_parse_on_off(val)), ..a }, true)
    } else if local == "bCs"@ || local == "iCs"@ {
        (a, true)
    } else if local == "strike"@ || local == "dstrike"@ {
        (RunAccView { kinds: set_kind(a.kinds, TextStyleKind::Strikethrough, spec_parse_on_off(val)), ..a }, true)
    } else if local == "u"@ {
        (RunAccView { kinds: set_kind(a.kinds, TextStyleKind::Underline, spec_parse_underline_on(val)), ..a }, true)
    } else if local == "vertAlign"@ {
        (RunAccView { kinds: set_vert_align(a.kinds, spec_parse_vert_align(val)), ..a }, true)
    } else if local == "color"@ {
        (RunAccView { text_color: spec_parse_color_val(val), ..a }, true)
    } else if local == "highlight"@ {
        (RunAccView { mark: spec_parse_highlight_val(val), ..a }, true)
    } else if local == "shd"@ {
        (RunAccView { shade: spec_parse_color_val(lookup_exact(tag.attrs@, "w:fill"@)), ..a }, true)
    } else if local == "rFonts"@ {
        (RunAccView { font: spec_rfonts_symbol(tag), ..a }, true)
    } else if local == "rStyle"@ {
        let code = val is Some && val->0.len() > 0
            && crate::styles::spec_classify(styles, val->0) == Some(StyleClassification::Code);
        (RunAccView { kinds: if code && !a.kinds.contains(TextStyleKind::Code) { a.kinds.push(TextStyleKind::Code) } else { a.kinds }, ..a }, true)
    } else {
        (a, false)
    }
}

/// Whether a child of a paragraph, run, cell, row or table is dropped with
/// its whole subtree.
pub open spec fn spec_is_denied(local: Seq<char>) -> bool {
    local == "Fallback"@ || local == "object"@ || local == "del"@ || local == "moveFrom"@ || local == "tblPr"@
        || local == "tblGrid"@ || local == "tblPrEx"@ || local == "sdtPr"@ || local == "sdtEndPr"@
}

/// Returns true for elements whose entire subtree is dropped.
pub fn is_denied_container(local: &str) -> (r: bool)
    ensures
        r == spec_is_denied(local@),
{
    str_eq(local, "Fallback") || str_eq(local, "object") || str_eq(local, "del") || str_eq(local, "moveFrom")
        || str_eq(local, "tblPr") || str_eq(local, "tblGrid") || str_eq(local, "tblPrEx") || str_eq(local, "sdtPr")
        || str_eq(local, "sdtEndPr")
}

/// A reader error in the document part.
fn reader_error(m: &str) -> (e: DocxError)
    ensures
        crate::events::is_parse_error(e, "malformed document.xml: "@ + m@),
{
    parse_error(concat_str("malformed document.xml: ", m))
}

/// A depth counter that stops at its maximum.
pub open spec fn sat_inc(d: u64) -> u64 {
    if d == u64::MAX { d } else { (d + 1) as u64 }
}

/// Where skipping to the end tag that closes an element named `name`
/// stops, from position `pos` with `depth` same-named elements open: the
/// position after that end tag, or the reader's message.
pub open spec fn spec_skip(toks: Seq<XmlToken>, pos: int, name: Seq<char>, depth: u64) -> Result<int, Seq<char>>
    decreases toks.len() - pos,
{
    if pos < 0 || pos >= toks.len() {
        Err(xml_missing_end_text(name))
    } else {
        match toks[pos] {
            XmlToken::Eof => Err(xml_missing_end_text(name)),
            XmlToken::Malformed(m) => Err(m@),
            XmlToken::Start(t) => spec_skip(toks, pos + 1, name, if t.name@ == name { sat_inc(depth) } else { depth }),
            XmlToken::End(n) => if n@ == name {
                if depth == 0 { Ok(pos + 1) } else { spec_skip(toks, pos + 1, name, (depth - 1) as u64) }
            } else {
                spec_skip(toks, pos + 1, name, depth)
            },
            _ => spec_skip(toks, pos + 1, name, depth),
        }
    }
}

/// A skip that succeeds ends after where it started, within the tokens.
pub proof fn lemma_skip_advances(toks: Seq<XmlToken>, pos: int, name: Seq<char>, depth: u64)
    ensures
        spec_skip(toks, pos, name, depth) matches Ok(p) ==> pos < p <= toks.len(),
    decreases toks.len() - pos,
{
    if 0 <= pos < toks.len() {
        match toks[pos] {
            XmlToken::Start(t) => lemma_skip_advances(toks, pos + 1, name, if t.name@ == name { sat_inc(depth) } else { depth }),
            XmlToken::End(n) => if n@ == name && depth > 0 {
                lemma_skip_advances(toks, pos + 1, name, (depth - 1) as u64);
            } else if n@ != name {
                lemma_skip_advances(toks, pos + 1, name, depth);
            },
            XmlToken::Eof => {},
            XmlToken::Malformed(_) => {},
            _ => lemma_skip_advances(toks, pos + 1, name, depth),
        }
    }
}

/// The message of a reader error in the document part.
pub open spec fn doc_msg(m: Seq<char>) -> Seq<char> {
    "malformed document.xml: "@ + m
}

/// The `w:val` of a tag read as a `u32`.
pub open spec fn val_u32(t: XmlTag) -> Option<u32> {
    match val_of(t) {
        Some(v) => crate::text::spec_parse_u32(v),
        None => None,
    }
}

/// The list a `numPr` names: its `numId`, with level 0 when `ilvl` is
/// missing; none without a `numId`.
pub open spec fn numpr_value(num_id: Option<u32>, ilvl: Option<u32>) -> Option<(u32, u32)> {
    match num_id {
        Some(n) => Some((n, match ilvl { Some(l) => l, None => 0u32 })),
        None => None,
    }
}

/// What reading the rest of a `<w:numPr>` from position `pos` gives, with
/// the `numId` and `ilvl` read so far: the list it names and the position
/// after its end tag, or the error message. Nested elements are skipped.
pub open spec fn spec_numpr(toks: Seq<XmlToken>, pos: int, num_id: Option<u32>, ilvl: Option<u32>) -> Result<(Option<(u32, u32)>, int), Seq<char>>
    decreases toks.len() - pos,
{
    if pos < 0 || pos >= toks.len() {
        Err(doc_msg("unexpected EOF inside <w:numPr>"@))
    } else {
        match toks[pos] {
            XmlToken::Empty(t) => if t.name@ == "w:numId"@ {
                spec_numpr(toks, pos + 1, val_u32(t), ilvl)
            } else if t.name@ == "w:ilvl"@ {
                spec_numpr(toks, pos + 1, num_id, val_u32(t))
            } else {
                spec_numpr(toks, pos + 1, num_id, ilvl)
            },
            XmlToken::Start(t) => match spec_skip(toks, pos + 1, t.name@, 0) {
                Err(m) => Err(doc_msg(m)),
                Ok(p) => {
                    proof { lemma_skip_advances(toks, pos + 1, t.name@, 0); }
                    spec_numpr(toks, p, num_id, ilvl)
                },
            },
            XmlToken::End(n) => if n@ == "w:numPr"@ {
                Ok((numpr_value(num_id, ilvl), pos + 1))
            } else {
                spec_numpr(toks, pos + 1, num_id, ilvl)
            },
            XmlToken::Malformed(m) => Err(doc_msg(m@)),
            XmlToken::Eof => Err(doc_msg("unexpected EOF inside <w:numPr>"@)),
            _ => spec_numpr(toks, pos + 1, num_id, ilvl),
        }
    }
}

/// What reading the rest of a `<w:tcPr>` from position `pos` gives, with
/// the column span read so far: the span (`w:gridSpan`, the last one wins)
/// and the position after its end tag, or the error message.
pub open spec fn spec_tcpr(toks: Seq<XmlToken>, pos: int, colspan: Option<u32>) -> Result<(Option<u32>, int), Seq<char>>
    decreases toks.len() - pos,
{
    if pos < 0 || pos >= toks.len() {
        Err(doc_msg("unexpected EOF inside <w:tcPr>"@))
    } else {
        match toks[pos] {
            XmlToken::Empty(t) => if local_name(t.name@) == "gridSpan"@ {
                spec_tcpr(toks, pos + 1, spec_parse_grid_span_value(val_of(t)))
            } else {
                spec_tcpr(toks, pos + 1, colspan)
            },
            XmlToken::Start(t) => {
                let c = if local_name(t.name@) == "gridSpan"@ { spec_parse_grid_span_value(val_of(t)) } else { colspan };
                match spec_skip(toks, pos + 1, t.name@, 0) {
                    Err(m) => Err(doc_msg(m)),
                    Ok(p) => {
                        proof { lemma_skip_advances(toks, pos + 1, t.name@, 0); }
                        spec_tcpr(toks, p, c)
                    },
                }
            },
            XmlToken::End(n) => if local_name(n@) == "tcPr"@ {
                Ok((colspan, pos + 1))
            } else {
                spec_tcpr(toks, pos + 1, colspan)
            },
            XmlToken::Malformed(m) => Err(doc_msg(m@)),
            XmlToken::Eof => Err(doc_msg("unexpected EOF inside <w:tcPr>"@)),
            _ => spec_tcpr(toks, pos + 1, colspan),
        }
    }
}

/// What reading the rest of a `<w:trPr>` from position `pos` gives, with
/// the header flag read so far: whether the row is a header row
/// (`w:tblHeader`, the last one wins) and the position after its end tag,
/// or the error message.
pub open spec fn spec_trpr(toks: Seq<XmlToken>, pos: int, is_header: bool) -> Result<(bool, int), Seq<char>>
    decreases toks.len() - pos,
{
    if pos < 0 || pos >= toks.len() {
        Err(doc_msg("unexpected EOF inside <w:trPr>"@))
    } else {
        match toks[pos] {
            XmlToken::Empty(t) => if local_name(t.name@) == "tblHeader"@ {
                spec_trpr(toks, pos + 1, spec_parse_on_off(val_of(t)))
            } else {
                spec_trpr(toks, pos + 1, is_header)
            },
            XmlToken::Start(t) => {
                let h = if local_name(t.name@) == "tblHeader"@ { spec_parse_on_off(val_of(t)) } else { is_header };
                match spec_skip(toks, pos + 1, t.name@, 0) {
                    Err(m) => Err(doc_msg(m)),
                    Ok(p) => {
                        proof { lemma_skip_advances(toks, pos + 1, t.name@, 0); }
                        spec_trpr(toks, p, h)
                    },
                }
            },
            XmlToken::End(n) => if local_name(n@) == "trPr"@ {
                Ok((is_header, pos + 1))
            } else {
                spec_trpr(toks, pos + 1, is_header)
            },
            XmlToken::Malformed(m) => Err(doc_msg(m@)),
            XmlToken::Eof => Err(doc_msg("unexpected EOF inside <w:trPr>"@)),
            _ => spec_trpr(toks, pos + 1, is_header),
        }
    }
}

/// A reading of `numPr` that succeeds ends after where it started.
pub proof fn lemma_numpr_advances(toks: Seq<XmlToken>, pos: int, num_id: Option<u32>, ilvl: Option<u32>)
    ensures
        spec_numpr(toks, pos, num_id, ilvl) matches Ok((v, p)) ==> pos < p <= toks.len(),
    decreases toks.len() - pos,
{
    if 0 <= pos < toks.len() {
        match toks[pos] {
            XmlToken::Empty(t) => {
                if t.name@ == "w:numId"@ {
                    lemma_numpr_advances(toks, pos + 1, val_u32(t), ilvl);
                } else if t.name@ == "w:ilvl"@ {
                    lemma_numpr_advances(toks, pos + 1, num_id, val_u32(t));
                } else {
                    lemma_numpr_advances(toks, pos + 1, num_id, ilvl);
                }
            },
            XmlToken::Start(t) => {
                lemma_skip_advances(toks, pos + 1, t.name@, 0);
                match spec_skip(toks, pos + 1, t.name@, 0) {
                    Ok(p) => lemma_numpr_advances(toks, p, num_id, ilvl),
                    Err(_) => {},
                }
            },
            XmlToken::End(n) => if n@ != "w:numPr"@ {
                lemma_numpr_advances(toks, pos + 1, num_id, ilvl);
            },
            XmlToken::Malformed(_) => {},
            XmlToken::Eof => {},
            _ => lemma_numpr_advances(toks, pos + 1, num_id, ilvl),
        }
    }
}

/// The alignment a `w:jc` names.
pub open spec fn jc_value(t: XmlTag) -> Option<TextAlignment> {
    match val_of(t) {
        Some(v) => spec_parse_alignment(v),
        None => None,
    }
}

/// The classification of the style a `w:pStyle` names.
pub open spec fn pstyle_value(styles: Seq<crate::styles::StyleView>, t: XmlTag) -> Option<StyleClassification> {
    match val_of(t) {
        Some(v) => if v.len() > 0 { crate::styles::spec_classify(styles, v) } else { None },
        None => None,
    }
}

/// What reading the rest of a `<w:pPr>` from position `pos` gives, with the
/// properties read so far: alignment (`w:jc`), classified style
/// (`w:pStyle`) and list (`w:numPr`), each the last one read, and the
/// position after its end tag; or the error message. `w:jc`, `w:pStyle` and
/// `w:rPr` elements with content are skipped; other elements are read into.
pub open spec fn spec_ppr(styles: Seq<crate::styles::StyleView>, toks: Seq<XmlToken>, pos: int, props: ParagraphProps) -> Result<(ParagraphProps, int), Seq<char>>
    decreases toks.len() - pos,
{
    if pos < 0 || pos >= toks.len() {
        Err(doc_msg("unexpected EOF inside <w:pPr>"@))
    } else {
        match toks[pos] {
            XmlToken::Empty(t) => {
                let l = local_name(t.name@);
                if l == "jc"@ {
                    spec_ppr(styles, toks, pos + 1, ParagraphProps { alignment: jc_value(t), ..props })
                } else if l == "pStyle"@ {
                    spec_ppr(styles, toks, pos + 1, ParagraphProps { classification: pstyle_value(styles, t), ..props })
                } else {
                    spec_ppr(styles, toks, pos + 1, props)
                }
            },
            XmlToken::Start(t) => {
                let l = local_name(t.name@);
                if l == "numPr"@ && l != "jc"@ && l != "pStyle"@ {
                    match spec_numpr(toks, pos + 1, None, None) {
                        Err(m) => Err(m),
                        Ok((v, p)) => {
                            proof { lemma_numpr_advances(toks, pos + 1, None, None); }
                            spec_ppr(styles, toks, p, ParagraphProps { list_info: v, ..props })
                        },
                    }
                } else if l == "jc"@ || l == "pStyle"@ || l == "rPr"@ {
                    let next = if l == "jc"@ {
                        ParagraphProps { alignment: jc_value(t), ..props }
                    } else if l == "pStyle"@ {
                        ParagraphProps { classification: pstyle_value(styles, t), ..props }
                    } else {
                        props
                    };
                    match spec_skip(toks, pos + 1, t.name@, 0) {
                        Err(m) => Err(doc_msg(m)),
                        Ok(p) => {
                            proof { lemma_skip_advances(toks, pos + 1, t.name@, 0); }
                            spec_ppr(styles, toks, p, next)
                        },
                    }
                } else {
                    spec_ppr(styles, toks, pos + 1, props)
                }
            },
            XmlToken::End(n) => if local_name(n@) == "pPr"@ {
                Ok((props, pos + 1))
            } else {
                spec_ppr(styles, toks, pos + 1, props)
            },
            XmlToken::Malformed(m) => Err(doc_msg(m@)),
            XmlToken::Eof => Err(doc_msg("unexpected EOF inside <w:pPr>"@)),
            _ => spec_ppr(styles, toks, pos + 1, props),
        }
    }
}

/// The run properties before any child of `<w:rPr>` is read.
pub open spec fn empty_run_acc() -> RunAccView {
    RunAccView { kinds: Seq::empty(), text_color: None, mark: None, shade: None, font: None }
}

/// What reading the rest of a `<w:rPr>` from position `pos` gives, with the
/// properties read so far: the properties after each child in turn (an
/// element with content is applied, then skipped), and the position after
/// its end tag; or the error message.
pub open spec fn spec_rpr(styles: Seq<crate::styles::StyleView>, toks: Seq<XmlToken>, pos: int, a: RunAccView) -> Result<(RunAccView, int), Seq<char>>
    decreases toks.len() - pos,
{
    if pos < 0 || pos >= toks.len() {
        Err(doc_msg("unexpected EOF inside <w:rPr>"@))
    } else {
        match toks[pos] {
            XmlToken::Start(t) => {
                let a2 = spec_apply_rpr(styles, local_name(t.name@), t, a).0;
                match spec_skip(toks, pos + 1, t.name@, 0) {
                    Err(m) => Err(doc_msg(m)),
                    Ok(p) => {
                        proof { lemma_skip_advances(toks, pos + 1, t.name@, 0); }
                        spec_rpr(styles, toks, p, a2)
                    },
                }
            },
            XmlToken::Empty(t) => spec_rpr(styles, toks, pos + 1, spec_apply_rpr(styles, local_name(t.name@), t, a).0),
            XmlToken::End(n) => if local_name(n@) == "rPr"@ {
                Ok((a, pos + 1))
            } else {
                spec_rpr(styles, toks, pos + 1, a)
            },
            XmlToken::Malformed(m) => Err(doc_msg(m@)),
            XmlToken::Eof => Err(doc_msg("unexpected EOF inside <w:rPr>"@)),
            _ => spec_rpr(styles, toks, pos + 1, a),
        }
    }
}

/// What reading the rest of a `<w:t>` from position `pos` gives, with the
/// text read so far: its text (character data unescaped, CDATA as is,
/// references resolved, nested elements skipped) and the position after
/// its end tag, or after the end of input; or the error message.
pub open spec fn spec_text(toks: Seq<XmlToken>, pos: int, acc: Seq<char>) -> Result<(Seq<char>, int), Seq<char>>
    decreases toks.len() - pos,
{
    if pos < 0 || pos >= toks.len() {
        Ok((acc, pos))
    } else {
        match toks[pos] {
            XmlToken::Text(raw) => match xml_unescaped(raw@) {
                Ok(v) => spec_text(toks, pos + 1, acc + v),
                Err(m) => Err(doc_msg(m)),
            },
            XmlToken::CData(c) => spec_text(toks, pos + 1, acc + c@),
            XmlToken::GeneralRef(name) => match xml_unescaped(seq!['&'] + name@ + seq![';']) {
                Ok(v) => spec_text(toks, pos + 1, acc + v),
                Err(m) => Err(doc_msg(m)),
            },
            XmlToken::End(n) => if local_name(n@) == "t"@ {
                Ok((acc, pos + 1))
            } else {
                spec_text(toks, pos + 1, acc)
            },
            XmlToken::Start(t) => match spec_skip(toks, pos + 1, t.name@, 0) {
                Err(m) => Err(doc_msg(m)),
                Ok(p) => {
                    proof { lemma_skip_advances(toks, pos + 1, t.name@, 0); }
                    spec_text(toks, p, acc)
                },
            },
            XmlToken::Malformed(m) => Err(doc_msg(m@)),
            XmlToken::Eof => Ok((acc, pos + 1)),
            _ => spec_text(toks, pos + 1, acc),
        }
    }
}

/// The view of a string option.
pub open spec fn sv(o: Option<String>) -> Option<Seq<char>> {
    crate::events::opt_string_chars(o)
}

impl Parser {
    /// What every reading step keeps: the invariant, the package data, and
    /// the events already queued; the position only moves forward.
    spec fn frame(&self, next: &Parser, n: nat) -> bool {
        &&& next.wf()
        &&& self.pos <= next.pos <= n
        &&& self.qv().is_prefix_of(next.qv())
        &&& next.data == self.data
        &&& (next.phase == self.phase || next.phase == Phase::Finished)
    }

    /// The next token, or none past the end (which reads as end of input).
    fn next_tok<'a>(&mut self, toks: &'a Vec<XmlToken>) -> (t: Option<&'a XmlToken>)
        requires
            old(self).pos <= toks@.len(),
        ensures
            match t {
                Some(x) => old(self).pos < toks@.len() && *x == toks@[old(self).pos as int] && final(self).pos == old(self).pos + 1,
                None => old(self).pos == toks@.len() && final(self).pos == old(self).pos,
            },
            final(self).queue == old(self).queue,
            final(self).list_stack == old(self).list_stack,
            final(self).list_counters == old(self).list_counters,
            final(self).pending_preformatted_close == old(self).pending_preformatted_close,
            final(self).open_styles == old(self).open_styles,
            final(self).phase == old(self).phase,
            final(self).data == old(self).data,
    {
        if self.pos < toks.len() {
            let t = &toks[self.pos];
            self.pos = self.pos + 1;
            Some(t)
        } else {
            None
        }
    }

    /// Skips to the end tag that closes an element named `name` (nested
    /// elements with the same name are counted), as `read_to_end_into` does.
    fn skip_subtree(&mut self, toks: &Vec<XmlToken>, name: &str) -> (r: Result<(), DocxError>)
        requires
            old(self).wf(),
            old(self).pos <= toks@.len(),
        ensures
            final(self).pending_preformatted_close == old(self).pending_preformatted_close,
            old(self).frame(&*final(self), toks@.len() as nat),
            final(self).queue == old(self).queue,
            final(self).open_styles == old(self).open_styles,
            final(self).list_stack == old(self).list_stack,
            final(self).phase == old(self).phase,
            r is Err ==> r->Err_0 is Parse,
            match spec_skip(toks@, old(self).pos as int, name@, 0) {
                Ok(p) => r is Ok && final(self).pos == p,
                Err(m) => r is Err && crate::events::is_parse_error(r->Err_0, doc_msg(m)),
            },
    {
        let mut depth: u64 = 0;
        loop
            invariant
                self.pending_preformatted_close == old(self).pending_preformatted_close,
                self.wf(),
                old(self).pos <= self.pos <= toks@.len(),
                spec_skip(toks@, old(self).pos as int, name@, 0) == spec_skip(toks@, self.pos as int, name@, depth),
                self.queue == old(self).queue,
                self.open_styles == old(self).open_styles,
                self.list_stack == old(self).list_stack,
                self.phase == old(self).phase,
                self.data == old(self).data,
            decreases toks@.len() - self.pos,
        {
            match self.next_tok(toks) {
                None => {
                    return Err(reader_error(xml_missing_end_message(name).as_str()));
                },
                Some(XmlToken::Eof) => {
                    return Err(reader_error(xml_missing_end_message(name).as_str()));
                },
                Some(XmlToken::Malformed(m)) => {
                    return Err(reader_error(m.as_str()));
                },
                Some(XmlToken::Start(t)) => {
                    if str_eq(t.name.as_str(), name) {
                        depth = depth.saturating_add(1);
                    }
                },
                Some(XmlToken::End(n)) => {
                    if str_eq(n.as_str(), name) {
                        if depth == 0 {
                            return Ok(());
                        }
                        depth = depth - 1;
                    }
                },
                Some(_) => {},
            }
        }
    }

    /// `&name;` with the reference resolved.
    fn decode_general_ref(name: &str) -> (r: Result<String, DocxError>)
        ensures
            match xml_unescaped(seq!['&'] + name@ + seq![';']) {
                Ok(v) => r is Ok && r->Ok_0@ == v,
                Err(m) => r is Err && crate::events::is_parse_error(r->Err_0, "malformed document.xml: "@ + m),
            },
    {
        let amp = concat_str("&", name);
        let escaped = concat_str(amp.as_str(), ";");
        proof {
            reveal_strlit("&");
            reveal_strlit(";");
        }
        assert(escaped@ =~= seq!['&'] + name@ + seq![';']);
        match xml_unescape(escaped.as_str()) {
            Ok(v) => Ok(v),
            Err(m) => Err(reader_error(m.as_str())),
        }
    }

    /// The text of a `<w:t>`: text unescaped, CDATA as is, references
    /// resolved; nested elements skipped.
    fn collect_text_content(&mut self, toks: &Vec<XmlToken>) -> (r: Result<String, DocxError>)
        requires
            old(self).wf(),
            old(self).pos <= toks@.len(),
        ensures
            old(self).frame(&*final(self), toks@.len() as nat),
            final(self).queue == old(self).queue,
            final(self).open_styles == old(self).open_styles,
            final(self).list_stack == old(self).list_stack,
            final(self).phase == old(self).phase,
            r is Err ==> r->Err_0 is Parse,
            match spec_text(toks@, old(self).pos as int, Seq::empty()) {
                Ok((v, p)) => r matches Ok(x) && x@ == v && final(self).pos == p,
                Err(m) => r is Err && crate::events::is_parse_error(r->Err_0, m),
            },
    {
        let mut content = String::new();
        loop
            invariant
                self.wf(),
                old(self).pos <= self.pos <= toks@.len(),
                spec_text(toks@, old(self).pos as int, Seq::empty()) == spec_text(toks@, self.pos as int, content@),
                self.queue == old(self).queue,
                self.open_styles == old(self).open_styles,
                self.list_stack == old(self).list_stack,
                self.phase == old(self).phase,
                self.data == old(self).data,
            decreases toks@.len() - self.pos,
        {
            match self.next_tok(toks) {
                Some(XmlToken::Text(raw)) => {
                    match xml_unescape(raw.as_str()) {
                        Ok(v) => content.append(v.as_str()),
                        Err(m) => {
                            return Err(reader_error(m.as_str()));
                        },
                    }
                },
                Some(XmlToken::CData(c)) => content.append(c.as_str()),
                Some(XmlToken::GeneralRef(name)) => {
                    let v = Parser::decode_general_ref(name.as_str())?;
                    content.append(v.as_str());
                },
                Some(XmlToken::End(n)) => {
                    if local_is(n.as_str(), "t") {
                        return Ok(content);
                    }
                },
                Some(XmlToken::Start(t)) => {
                    self.skip_subtree(toks, t.name.as_str())?;
                },
                Some(XmlToken::Malformed(m)) => {
                    return Err(reader_error(m.as_str()));
                },
                Some(XmlToken::Eof) => {
                    return Ok(content);
                },
                None => {
                    return Ok(content);
                },
                Some(_) => {},
            }
        }
    }

    /// Applies one child of `<w:rPr>` to the run properties being read.
    fn apply_resolved_rpr_property(&self, local: &str, tag: &XmlTag, acc: &mut RunPropertyAccumulator) -> (known: bool)
        ensures
            (final(acc)@, known) == spec_apply_rpr(self.data.style_list@, local@, *tag, old(acc)@),
    {
        let ghost a0 = acc@;
        if str_eq(local, "b") {
            let on = parse_on_off(opt_str(&read_val_attribute(tag)));
            set_resolved_run_kind(&mut acc.kinds, TextStyleKind::Bold, on);
        } else if str_eq(local, "i") {
            let on = parse_on_off(opt_str(&read_val_attribute(tag)));
            set_resolved_run_kind(&mut acc.kinds, TextStyleKind::Italic, on);
        } else if str_eq(local, "bCs") || str_eq(local, "iCs") {
        } else if str_eq(local, "strike") || str_eq(local, "dstrike") {
            let on = parse_on_off(opt_str(&read_val_attribute(tag)));
            set_resolved_run_kind(&mut acc.kinds, TextStyleKind::Strikethrough, on);
        } else if str_eq(local, "u") {
            let on = parse_underline_on(opt_str(&read_val_attribute(tag)));
            set_resolved_run_kind(&mut acc.kinds, TextStyleKind::Underline, on);
        } else if str_eq(local, "vertAlign") {
            let a = parse_vert_align(opt_str(&read_val_attribute(tag)));
            set_resolved_vertical_alignment(&mut acc.kinds, a);
        } else if str_eq(local, "color") {
            acc.text_color = parse_color_val(opt_str(&read_val_attribute(tag)));
        } else if str_eq(local, "highlight") {
            acc.mark = parse_highlight_val(opt_str(&read_val_attribute(tag)));
        } else if str_eq(local, "shd") {
            let fill = exact_attr(tag, "w:fill");
            acc.shade = parse_shd_fill(opt_str(&fill));
        } else if str_eq(local, "rFonts") {
            acc.font = read_rfonts_symbol(tag);
        } else if str_eq(local, "rStyle") {
            let val = read_val_attribute(tag);
            let code = match &val {
                Some(v) => !str_is_empty(v.as_str()) && self.data.style_list.classify(v.as_str()) == Some(StyleClassification::Code),
                None => false,
            };
            if code && !contains_kind(&acc.kinds, TextStyleKind::Code) {
                acc.kinds.push(TextStyleKind::Code);
            }
        } else {
            return false;
        }
        true
    }

    /// Reads the rest of a `<w:rPr>`.
    fn parse_rpr(&mut self, toks: &Vec<XmlToken>) -> (r: Result<RunProps, DocxError>)
        requires
            old(self).wf(),
            old(self).pos <= toks@.len(),
        ensures
            old(self).frame(&*final(self), toks@.len() as nat),
            final(self).queue == old(self).queue,
            final(self).list_stack == old(self).list_stack,
            final(self).phase == old(self).phase,
            r is Err ==> r->Err_0 is Parse,
            match spec_rpr(old(self).data.style_list@, toks@, old(self).pos as int, empty_run_acc()) {
                Ok((a, p)) => r matches Ok(x) && x.kinds@ == a.kinds && x.text_color == a.text_color
                    && x.mark == (if a.mark is Some { a.mark } else { a.shade }) && x.font == a.font
                    && final(self).pos == p,
                Err(m) => r is Err && crate::events::is_parse_error(r->Err_0, m),
            },
    {
        let mut acc = RunPropertyAccumulator { kinds: Vec::new(), text_color: None, mark: None, shade: None, font: None };
        assert(acc@.kinds =~= Seq::<TextStyleKind>::empty());
        loop
            invariant
                self.wf(),
                old(self).pos <= self.pos <= toks@.len(),
                spec_rpr(old(self).data.style_list@, toks@, old(self).pos as int, empty_run_acc())
                    == spec_rpr(self.data.style_list@, toks@, self.pos as int, acc@),
                self.queue == old(self).queue,
                self.list_stack == old(self).list_stack,
                self.phase == old(self).phase,
                self.data == old(self).data,
            decreases toks@.len() - self.pos,
        {
            match self.next_tok(toks) {
                Some(XmlToken::Start(t)) => {
                    let local = local_name_of(t.name.as_str());
                    let _ = self.apply_resolved_rpr_property(local.as_str(), t, &mut acc);
                    self.skip_subtree(toks, t.name.as_str())?;
                },
                Some(XmlToken::Empty(t)) => {
                    let local = local_name_of(t.name.as_str());
                    let _ = self.apply_resolved_rpr_property(local.as_str(), t, &mut acc);
                },
                Some(XmlToken::End(n)) => {
                    if local_is(n.as_str(), "rPr") {
                        let mark = match acc.mark {
                            Some(m) => Some(m),
                            None => acc.shade,
                        };
                        return Ok(RunProps { kinds: acc.kinds, text_color: acc.text_color, mark, font: acc.font });
                    }
                },
                Some(XmlToken::Malformed(m)) => {
                    return Err(reader_error(m.as_str()));
                },
                Some(XmlToken::Eof) => {
                    return Err(reader_error("unexpected EOF inside <w:rPr>"));
                },
                None => {
                    return Err(reader_error("unexpected EOF inside <w:rPr>"));
                },
                Some(_) => {},
            }
        }
    }
}


/// Where an image relationship id points: an external image keeps its URL;
/// an internal one becomes the asset `zip://<path>`; an unknown id is kept
/// as the asset id itself.
pub open spec fn spec_image_source(images: Map<Seq<char>, (Seq<char>, bool)>, rid: Seq<char>) -> ImageSourceView {
    if images.contains_key(rid) {
        if images[rid].1 {
            ImageSourceView::Uri { uri: images[rid].0 }
        } else {
            ImageSourceView::Asset { asset_id: "zip://"@ + images[rid].0 }
        }
    } else {
        ImageSourceView::Asset { asset_id: rid }
    }
}

/// An attribute's raw value with its references resolved; none when absent
/// or unresolvable.
pub open spec fn decoded_attr(tag: XmlTag, key: Seq<char>) -> Option<Seq<char>> {
    match lookup_exact(tag.attrs@, key) {
        Some(raw) => match xml_unescaped(raw) {
            Ok(v) => Some(v),
            Err(_) => None,
        },
        None => None,
    }
}

fn read_decoded_attribute(tag: &XmlTag, key: &str) -> (r: Option<String>)
    ensures
        sv(r) == decoded_attr(*tag, key@),
{
    match exact_attr(tag, key) {
        Some(raw) => match xml_unescape(raw.as_str()) {
            Ok(v) => Some(v),
            Err(_) => None,
        },
        None => None,
    }
}

/// State of a scan through a `<w:drawing>` subtree.
struct DrawingScanState {
    pending_alt: Option<String>,
    current_pic_alt: Option<String>,
    pic_depth: u32,
    blip_fill_depth: u32,
    emitted_for_current_pic: bool,
}

/// Where a scan through the rest of a subtree stops, from `pos` with
/// `depth` elements open: the position after the end tag that closes it and
/// whether the input ended first; or the reader's message.
pub open spec fn spec_subtree_scan(toks: Seq<XmlToken>, pos: int, depth: u32) -> Result<(int, bool), Seq<char>>
    decreases toks.len() - pos,
{
    if pos < 0 || pos >= toks.len() {
        Ok((pos, true))
    } else {
        match toks[pos] {
            XmlToken::Start(_) => spec_subtree_scan(toks, pos + 1, if depth == u32::MAX { depth } else { (depth + 1) as u32 }),
            XmlToken::End(_) => if depth <= 1 { Ok((pos + 1, false)) } else { spec_subtree_scan(toks, pos + 1, (depth - 1) as u32) },
            XmlToken::Eof => Ok((pos + 1, true)),
            XmlToken::Malformed(m) => Err(doc_msg(m@)),
            _ => spec_subtree_scan(toks, pos + 1, depth),
        }
    }
}

/// The image event for `alt` and `source`.
pub open spec fn image_view(alt: Option<Seq<char>>, source: ImageSourceView) -> EventView {
    EventView::Image { alt, decorative: false, id: None, source, title: None }
}

/// The relationship id of a `a:blip`: `r:embed`, else `r:link`.
pub open spec fn blip_rid(tag: XmlTag) -> Option<Seq<char>> {
    match lookup_exact(tag.attrs@, "r:embed"@) {
        Some(v) => Some(v),
        None => lookup_exact(tag.attrs@, "r:link"@),
    }
}

/// The relationship id of a `v:imagedata`: `r:id`, else `r:embed`, else
/// `r:link`.
pub open spec fn imagedata_rid(tag: XmlTag) -> Option<Seq<char>> {
    match lookup_exact(tag.attrs@, "r:id"@) {
        Some(v) => Some(v),
        None => blip_rid(tag),
    }
}

/// The innermost `alt` that an enclosing shape gave.
pub open spec fn innermost_alt(stack: Seq<Option<String>>) -> Option<Seq<char>>
    decreases stack.len(),
{
    if stack.len() == 0 {
        None
    } else if stack.last() is Some {
        Some(stack.last()->0@)
    } else {
        innermost_alt(stack.drop_last())
    }
}

/// The alt text of a `v:imagedata`: a non-empty `o:title`, else the
/// innermost shape's `alt`.
pub open spec fn imagedata_alt(tag: XmlTag, stack: Seq<Option<String>>) -> Option<Seq<char>> {
    match decoded_attr(tag, "o:title"@) {
        Some(t) => if t.len() > 0 { Some(t) } else { innermost_alt(stack) },
        None => innermost_alt(stack),
    }
}

/// Whether every event of `q` from index `from` on is an image.
pub open spec fn only_images(q: Seq<EventView>, from: int) -> bool {
    forall|i: int| from <= i < q.len() ==> #[trigger] q[i] is Image
}

/// State of a scan through a `<w:pict>` subtree.
struct VmlScanState {
    shape_alt_stack: Vec<Option<String>>,
}

fn clone_opt_string(o: &Option<String>) -> (r: Option<String>)
    ensures
        sv(r) == sv(*o),
{
    match o {
        Some(s) => Some(s.clone()),
        None => None,
    }
}

impl Parser {
    fn image_source_for_rid(&self, rid: &str) -> (r: ImageSource)
        ensures
            r@ == spec_image_source(self.data.image_map@, rid@),
    {
        match self.data.image_map.get(rid) {
            Some(rel) => {
                if rel.is_external {
                    ImageSource::Uri { uri: rel.target.clone() }
                } else {
                    ImageSource::Asset { asset_id: concat_str("zip://", rel.target.as_str()) }
                }
            },
            None => ImageSource::Asset { asset_id: rid.to_owned() },
        }
    }

    /// Ends the document: open lists and a pending code block close, then
    /// `EndDocument`.
    fn handle_eof(&mut self)
        requires
            old(self).wf(),
        ensures
            final(self).wf(),
            final(self).qv() == (if old(self).pending_preformatted_close {
                old(self).qv() + pop_events(old(self).list_stack@, 0) + seq![EventView::EndPreformatted]
            } else {
                old(self).qv() + pop_events(old(self).list_stack@, 0)
            }).push(EventView::EndDocument),
            table_free(final(self).qv(), old(self).qv().len() as int),
            final(self).phase == Phase::Finished,
            final(self).list_stack@.len() == 0,
            !final(self).pending_preformatted_close,
            final(self).pos == old(self).pos,
            final(self).data == old(self).data,
    {
        self.flush_list_stack();
        let ghost mid = self.qv();
        self.flush_pending_preformatted_close();
        proof { lemma_table_free_step(mid, self.qv(), old(self).qv().len() as int); }
        self.emit(Event::EndDocument);
        self.phase = Phase::Finished;
        assert(self.qv() =~= (if old(self).pending_preformatted_close {
            old(self).qv() + pop_events(old(self).list_stack@, 0) + seq![EventView::EndPreformatted]
        } else {
            old(self).qv() + pop_events(old(self).list_stack@, 0)
        }).push(EventView::EndDocument));
    }

    fn maybe_emit_drawing_blip(&mut self, state: &mut DrawingScanState, tag: &XmlTag)
        requires
            old(self).wf(),
        ensures
            final(self).wf(),
            ({
                let ready = old(state).pic_depth > 0 && old(state).blip_fill_depth > 0 && !old(state).emitted_for_current_pic;
                if ready && blip_rid(*tag) is Some {
                    &&& final(self).qv() == old(self).qv().push(image_view(sv(old(state).current_pic_alt),
                        spec_image_source(old(self).data.image_map@, blip_rid(*tag)->0)))
                    &&& final(state).emitted_for_current_pic
                    &&& final(state).pic_depth == old(state).pic_depth
                    &&& final(state).blip_fill_depth == old(state).blip_fill_depth
                    &&& final(state).current_pic_alt == old(state).current_pic_alt
                    &&& final(state).pending_alt == old(state).pending_alt
                } else {
                    final(self).qv() == old(self).qv() && *final(state) == *old(state)
                }
            }),
            old(self).qv().is_prefix_of(final(self).qv()),
            final(self).pos == old(self).pos,
            final(self).data == old(self).data,
            final(self).phase == old(self).phase,
    {
        if state.pic_depth == 0 || state.blip_fill_depth == 0 || state.emitted_for_current_pic {
            return;
        }
        let rid = match exact_attr(tag, "r:embed") {
            Some(r) => r,
            None => match exact_attr(tag, "r:link") {
                Some(r) => r,
                None => {
                    return;
                },
            },
        };
        state.emitted_for_current_pic = true;
        let source = self.image_source_for_rid(rid.as_str());
        self.emit(Event::Image { alt: clone_opt_string(&state.current_pic_alt), decorative: false, id: None, source, title: None });
    }

    /// Scans a `<w:drawing>` subtree: each `pic:pic` inside a
    /// `pic:blipFill` yields one image, its alt text from the last
    /// `wp:docPr descr` before it.
    fn parse_drawing_subtree(&mut self, toks: &Vec<XmlToken>) -> (r: Result<(), DocxError>)
        requires
            old(self).wf(),
            old(self).pos <= toks@.len(),
        ensures
            old(self).frame(&*final(self), toks@.len() as nat),
            r is Err ==> r->Err_0 is Parse,
            final(self).phase != Phase::Finished ==> only_images(final(self).qv(), old(self).qv().len() as int),
            table_free(final(self).qv(), old(self).qv().len() as int),
            match spec_subtree_scan(toks@, old(self).pos as int, 1) {
                Ok((p, eof)) => r is Ok && final(self).pos == p
                    && (eof ==> final(self).phase == Phase::Finished && final(self).qv().last() == EventView::EndDocument),
                Err(m) => r is Err && crate::events::is_parse_error(r->Err_0, m),
            },
    {
        let ghost mut hit_eof = false;
        let mut state = DrawingScanState { pending_alt: None, current_pic_alt: None, pic_depth: 0, blip_fill_depth: 0, emitted_for_current_pic: false };
        let mut depth: u32 = 1;
        while depth > 0
            invariant
                depth > 0 ==> spec_subtree_scan(toks@, old(self).pos as int, 1) == spec_subtree_scan(toks@, self.pos as int, depth),
                depth == 0 ==> spec_subtree_scan(toks@, old(self).pos as int, 1) == Ok::<(int, bool), Seq<char>>((self.pos as int, hit_eof)),
                hit_eof ==> self.phase == Phase::Finished && self.qv().len() > 0 && self.qv().last() == EventView::EndDocument,
                depth > 0 ==> !hit_eof,
                self.phase != Phase::Finished ==> only_images(self.qv(), old(self).qv().len() as int),
                table_free(self.qv(), old(self).qv().len() as int),
                self.wf(),
                old(self).pos <= self.pos <= toks@.len(),
                old(self).qv().is_prefix_of(self.qv()),
                self.phase == old(self).phase || self.phase == Phase::Finished,
                self.data == old(self).data,
            decreases toks@.len() - self.pos, depth,
        {
            match self.next_tok(toks) {
                Some(XmlToken::Start(t)) => {
                    let local = local_name_of(t.name.as_str());
                    if str_eq(local.as_str(), "docPr") {
                        state.pending_alt = read_decoded_attribute(t, "descr");
                    } else if str_eq(local.as_str(), "pic") {
                        state.pic_depth = state.pic_depth.saturating_add(1);
                        if state.pic_depth == 1 {
                            state.current_pic_alt = state.pending_alt.take();
                            state.emitted_for_current_pic = false;
                        }
                    } else if str_eq(local.as_str(), "blipFill") && state.pic_depth > 0 {
                        state.blip_fill_depth = state.blip_fill_depth.saturating_add(1);
                    } else if str_eq(local.as_str(), "blip") {
                        self.maybe_emit_drawing_blip(&mut state, t);
                    }
                    depth = depth.saturating_add(1);
                },
                Some(XmlToken::Empty(t)) => {
                    let local = local_name_of(t.name.as_str());
                    if str_eq(local.as_str(), "docPr") {
                        state.pending_alt = read_decoded_attribute(t, "descr");
                    } else if str_eq(local.as_str(), "blip") {
                        self.maybe_emit_drawing_blip(&mut state, t);
                    }
                },
                Some(XmlToken::End(n)) => {
                    let local = local_name_of(n.as_str());
                    if str_eq(local.as_str(), "drawing") && depth == 1 {
                        depth = 0;
                    } else {
                        if str_eq(local.as_str(), "blipFill") && state.blip_fill_depth > 0 {
                            state.blip_fill_depth = state.blip_fill_depth - 1;
                        } else if str_eq(local.as_str(), "pic") && state.pic_depth > 0 {
                            state.pic_depth = state.pic_depth - 1;
                            if state.pic_depth == 0 {
                                state.current_pic_alt = None;
                                state.emitted_for_current_pic = false;
                            }
                        }
                        depth = depth - 1;
                    }
                },
                Some(XmlToken::Malformed(m)) => {
                    return Err(reader_error(m.as_str()));
                },
                Some(XmlToken::Eof) => {
                    let ghost mid = self.qv();
                    self.handle_eof();
                    proof {
                        lemma_table_free_step(mid, self.qv(), old(self).qv().len() as int);
                        hit_eof = true;
                    }
                    depth = 0;
                },
                None => {
                    let ghost mid = self.qv();
                    self.handle_eof();
                    proof {
                        lemma_table_free_step(mid, self.qv(), old(self).qv().len() as int);
                        hit_eof = true;
                    }
                    depth = 0;
                },
                Some(_) => {},
            }
        }
        Ok(())
    }

    fn emit_pict_imagedata(&mut self, state: &VmlScanState, tag: &XmlTag)
        requires
            old(self).wf(),
        ensures
            final(self).wf(),
            match imagedata_rid(*tag) {
                Some(rid) => final(self).qv() == old(self).qv().push(image_view(imagedata_alt(*tag, state.shape_alt_stack@),
                    spec_image_source(old(self).data.image_map@, rid))),
                None => final(self).qv() == old(self).qv(),
            },
            old(self).qv().is_prefix_of(final(self).qv()),
            final(self).pos == old(self).pos,
            final(self).data == old(self).data,
            final(self).phase == old(self).phase,
    {
        let rid = match exact_attr(tag, "r:id") {
            Some(r) => r,
            None => match exact_attr(tag, "r:embed") {
                Some(r) => r,
                None => match exact_attr(tag, "r:link") {
                    Some(r) => r,
                    None => {
                        return;
                    },
                },
            },
        };
        let title = read_decoded_attribute(tag, "o:title");
        let alt = match title {
            Some(t) if !str_is_empty(t.as_str()) => Some(t),
            _ => {
                let mut found: Option<String> = None;
                let mut i: usize = state.shape_alt_stack.len();
                assert(state.shape_alt_stack@.take(i as int) =~= state.shape_alt_stack@);
                while i > 0
                    invariant_except_break
                        i <= state.shape_alt_stack@.len(),
                        innermost_alt(state.shape_alt_stack@) == innermost_alt(state.shape_alt_stack@.take(i as int)),
                        found is None,
                    ensures
                        sv(found) == innermost_alt(state.shape_alt_stack@),
                    decreases i,
                {
                    assert(state.shape_alt_stack@.take(i as int).drop_last() =~= state.shape_alt_stack@.take(i - 1));
                    i = i - 1;
                    if let Some(a) = &state.shape_alt_stack[i] {
                        found = Some(a.clone());
                        break;
                    }
                }
                found
            },
        };
        let source = self.image_source_for_rid(rid.as_str());
        self.emit(Event::Image { alt, decorative: false, id: None, source, title: None });
    }

    /// Scans a `<w:pict>` subtree: each `v:imagedata` with a relationship id
    /// yields one image, its alt text from `o:title` or the nearest
    /// enclosing `v:shape alt`.
    fn parse_pict_subtree(&mut self, toks: &Vec<XmlToken>) -> (r: Result<(), DocxError>)
        requires
            old(self).wf(),
            old(self).pos <= toks@.len(),
        ensures
            old(self).frame(&*final(self), toks@.len() as nat),
            final(self).phase == old(self).phase,
            r is Err ==> r->Err_0 is Parse,
            only_images(final(self).qv(), old(self).qv().len() as int),
            table_free(final(self).qv(), old(self).qv().len() as int),
            match spec_subtree_scan(toks@, old(self).pos as int, 1) {
                Ok((p, false)) => r is Ok && final(self).pos == p,
                Ok((_, true)) => r is Err && crate::events::is_parse_error(r->Err_0,
                    "malformed document.xml: unexpected EOF inside <w:pict>"@),
                Err(m) => r is Err && crate::events::is_parse_error(r->Err_0, m),
            },
    {
        let mut state = VmlScanState { shape_alt_stack: Vec::new() };
        let mut depth: u32 = 1;
        while depth > 0
            invariant
                depth > 0 ==> spec_subtree_scan(toks@, old(self).pos as int, 1) == spec_subtree_scan(toks@, self.pos as int, depth),
                depth == 0 ==> spec_subtree_scan(toks@, old(self).pos as int, 1) == Ok::<(int, bool), Seq<char>>((self.pos as int, false)),
                only_images(self.qv(), old(self).qv().len() as int),
                table_free(self.qv(), old(self).qv().len() as int),
                self.wf(),
                old(self).pos <= self.pos <= toks@.len(),
                old(self).qv().is_prefix_of(self.qv()),
                self.phase == old(self).phase || self.phase == Phase::Finished,
                self.data == old(self).data,
                self.phase == old(self).phase,
            decreases toks@.len() - self.pos,
        {
            match self.next_tok(toks) {
                Some(XmlToken::Start(t)) => {
                    let local = local_name_of(t.name.as_str());
                    if str_eq(local.as_str(), "shape") {
                        state.shape_alt_stack.push(read_decoded_attribute(t, "alt"));
                    } else if str_eq(local.as_str(), "imagedata") {
                        self.emit_pict_imagedata(&state, t);
                    }
                    depth = depth.saturating_add(1);
                },
                Some(XmlToken::Empty(t)) => {
                    if local_is(t.name.as_str(), "imagedata") {
                        self.emit_pict_imagedata(&state, t);
                    }
                },
                Some(XmlToken::End(n)) => {
                    let local = local_name_of(n.as_str());
                    if str_eq(local.as_str(), "pict") && depth == 1 {
                        depth = 0;
                    } else {
                        if str_eq(local.as_str(), "shape") {
                            let _ = state.shape_alt_stack.pop();
                        }
                        depth = depth - 1;
                    }
                },
                Some(XmlToken::Malformed(m)) => {
                    return Err(reader_error(m.as_str()));
                },
                Some(XmlToken::Eof) => {
                    return Err(parse_error(String::from_str("malformed document.xml: unexpected EOF inside <w:pict>")));
                },
                None => {
                    return Err(parse_error(String::from_str("malformed document.xml: unexpected EOF inside <w:pict>")));
                },
                Some(_) => {},
            }
        }
        Ok(())
    }
}


/// The text a `<w:sym>` shows: the character of `w:char` in the font named by
/// `w:font` (or the run's symbol font); none when any of these is missing.
pub open spec fn spec_sym_text(p: Option<&RunProps>, tag: XmlTag) -> Option<Seq<char>> {
    match lookup_exact(tag.attrs@, "w:char"@) {
        None => None,
        Some(hex) => match crate::properties::spec_parse_sym_char(hex) {
            None => None,
            Some(key) => {
                let named = match lookup_exact(tag.attrs@, "w:font"@) {
                    Some(n) => spec_font_from_name(n),
                    None => None,
                };
                let font = if named is Some { named } else {
                    match p {
                        Some(p) => p.font,
                        None => None,
                    }
                };
                match font {
                    None => None,
                    Some(f) => match spec_font_convert(f, key) {
                        Some(c) => Some(seq![c]),
                        None => None,
                    },
                }
            },
        },
    }
}

fn resolve_sym_char(p: Option<&RunProps>, tag: &XmlTag) -> (r: Option<String>)
    ensures
        sv(r) == spec_sym_text(p, *tag),
{
    let hex = exact_attr(tag, "w:char")?;
    let key = parse_sym_char(hex.as_str())?;
    let named = match exact_attr(tag, "w:font") {
        Some(n) => SymbolFont::from_name(n.as_str()),
        None => None,
    };
    let font = match named {
        Some(f) => f,
        None => match p {
            Some(p) => p.font?,
            None => {
                return None;
            },
        },
    };
    let c = font.convert(key)?;
    let mut v: Vec<char> = Vec::new();
    v.push(c);
    Some(string_from_chars(v.as_slice()))
}

/// The open styles after opening `styles` in order, each only if it is not
/// open yet.
pub open spec fn with_styles_opened(open: Seq<TextStyleKind>, styles: Seq<TextStyleKind>) -> Seq<TextStyleKind>
    decreases styles.len(),
{
    if styles.len() == 0 {
        open
    } else {
        let o = with_styles_opened(open, styles.drop_last());
        if o.contains(styles.last()) { o } else { o.push(styles.last()) }
    }
}

/// The index of the last occurrence of `k` in `s`, or -1.
pub open spec fn last_index_of(s: Seq<TextStyleKind>, k: TextStyleKind) -> int
    decreases s.len(),
{
    if s.len() == 0 {
        -1
    } else if s.last() == k {
        s.len() - 1
    } else {
        last_index_of(s.drop_last(), k)
    }
}

proof fn lemma_last_index_of(s: Seq<TextStyleKind>, k: TextStyleKind)
    ensures
        -1 <= last_index_of(s, k) < s.len(),
        last_index_of(s, k) >= 0 ==> s[last_index_of(s, k)] == k
            && forall|j: int| last_index_of(s, k) < j < s.len() ==> s[j] != k,
        last_index_of(s, k) == -1 ==> forall|j: int| 0 <= j < s.len() ==> s[j] != k,
    decreases s.len(),
{
    if s.len() > 0 && s.last() != k {
        lemma_last_index_of(s.drop_last(), k);
        assert(forall|j: int| 0 <= j < s.len() - 1 ==> s.drop_last()[j] == s[j]);
    }
}

/// The open styles after closing the styles `styles`, last first: each
/// closes its innermost open occurrence, if it is open.
pub open spec fn with_styles_closed(open: Seq<TextStyleKind>, styles: Seq<TextStyleKind>) -> Seq<TextStyleKind>
    decreases styles.len(),
{
    if styles.len() == 0 {
        open
    } else {
        let j = last_index_of(open, styles.last());
        let o2 = if j >= 0 { open.remove(j) } else { open };
        with_styles_closed(o2, styles.drop_last())
    }
}

/// The `StartTextStyle` events for the styles `kinds`, in order.
pub open spec fn style_start_events(kinds: Seq<TextStyleKind>) -> Seq<EventView> {
    kinds.map_values(|k: TextStyleKind| EventView::StartTextStyle { kind: k, id: None })
}

proof fn lemma_styles_opened_extends(open: Seq<TextStyleKind>, styles: Seq<TextStyleKind>)
    ensures
        open.is_prefix_of(with_styles_opened(open, styles)),
    decreases styles.len(),
{
    if styles.len() > 0 {
        lemma_styles_opened_extends(open, styles.drop_last());
    }
}

/// Where reading a child element of a run that starts at `pos` (just after
/// its start tag) stops, and whether the run may still read its
/// properties afterwards (`open`: no properties read and no content
/// emitted yet); or the reader's message.
pub open spec fn spec_run_child(styles: Seq<crate::styles::StyleView>, toks: Seq<XmlToken>, pos: int, tag: XmlTag, open: bool) -> Result<(int, bool), Seq<char>> {
    let l = local_name(tag.name@);
    let skipped = |still_open: bool| match spec_skip(toks, pos, tag.name@, 0) {
        Ok(p) => Ok::<(int, bool), Seq<char>>((p, still_open)),
        Err(m) => Err(doc_msg(m)),
    };
    if l == "rPr"@ && open {
        match spec_rpr(styles, toks, pos, empty_run_acc()) {
            Ok((_, p)) => Ok((p, false)),
            Err(m) => Err(m),
        }
    } else if l == "rPr"@ {
        skipped(open)
    } else if l == "t"@ {
        match spec_text(toks, pos, Seq::empty()) {
            Ok((v, p)) => Ok((p, open && v.len() == 0)),
            Err(m) => Err(m),
        }
    } else if l == "tab"@ || l == "br"@ {
        skipped(false)
    } else if l == "drawing"@ {
        match spec_subtree_scan(toks, pos, 1) {
            Ok((p, _)) => Ok((p, false)),
            Err(m) => Err(m),
        }
    } else if l == "pict"@ {
        match spec_subtree_scan(toks, pos, 1) {
            Ok((p, false)) => Ok((p, false)),
            Ok((_, true)) => Err("malformed document.xml: unexpected EOF inside <w:pict>"@),
            Err(m) => Err(m),
        }
    } else if l == "instrText"@ || l == "fldChar"@ || spec_is_denied(l) {
        skipped(open)
    } else {
        Ok((pos, open))
    }
}

/// Whether a run that may still read its properties (`open`) may do so
/// after an empty child element `tag`.
pub open spec fn spec_run_empty_child(tag: XmlTag, open: bool) -> bool {
    let l = local_name(tag.name@);
    if l == "rPr"@ && open {
        false
    } else if l == "tab"@ || l == "br"@ {
        false
    } else if l == "sym"@ {
        open && spec_sym_text(None, tag) is None
    } else {
        open
    }
}

/// Where reading the rest of a run from `pos` stops: the position after its
/// end tag (or after the end of input); or the reader's message. `open`
/// says whether the run may still read its properties.
pub open spec fn spec_run_scan(styles: Seq<crate::styles::StyleView>, toks: Seq<XmlToken>, pos: int, open: bool) -> Result<int, Seq<char>>
    decreases toks.len() - pos,
{
    if pos < 0 || pos >= toks.len() {
        Ok(pos)
    } else {
        match toks[pos] {
            XmlToken::Start(t) => match spec_run_child(styles, toks, pos + 1, t, open) {
                Ok((p, o)) => if pos < p <= toks.len() { spec_run_scan(styles, toks, p, o) } else { Ok(p) },
                Err(m) => Err(m),
            },
            XmlToken::Empty(t) => spec_run_scan(styles, toks, pos + 1, spec_run_empty_child(t, open)),
            XmlToken::End(n) => if local_name(n@) == "r"@ { Ok(pos + 1) } else { spec_run_scan(styles, toks, pos + 1, open) },
            XmlToken::GeneralRef(name) => match xml_unescaped(seq!['&'] + name@ + seq![';']) {
                Ok(v) => spec_run_scan(styles, toks, pos + 1, open && v.len() == 0),
                Err(m) => Err(doc_msg(m)),
            },
            XmlToken::Malformed(m) => Err(doc_msg(m@)),
            XmlToken::Eof => Ok(pos + 1),
            _ => spec_run_scan(styles, toks, pos + 1, open),
        }
    }
}

/// The run properties, by reference.
pub open spec fn props_ref(o: &Option<RunProps>) -> Option<&RunProps> {
    match o {
        Some(p) => Some(p),
        None => None,
    }
}

/// The events that open a run's styles before its first content: none once
/// content was emitted, else a start for each style not open yet.
pub open spec fn deferred_style_events(open: Seq<TextStyleKind>, p: Option<&RunProps>, content_emitted: bool) -> Seq<EventView> {
    if content_emitted {
        Seq::empty()
    } else {
        style_start_events(with_styles_opened(open, spec_run_styles(p)).skip(open.len() as int))
    }
}

impl Parser {
    fn emit_style_if_not_open(&mut self, kind: TextStyleKind)
        ensures
            old(self).open_styles@.contains(kind) ==> final(self).qv() == old(self).qv() && final(self).open_styles == old(self).open_styles,
            !old(self).open_styles@.contains(kind) ==> final(self).qv() == old(self).qv().push(EventView::StartTextStyle { kind, id: None })
                && final(self).open_styles@ == old(self).open_styles@.push(kind),
            final(self).pos == old(self).pos,
            final(self).list_stack == old(self).list_stack,
            final(self).list_counters == old(self).list_counters,
            final(self).pending_preformatted_close == old(self).pending_preformatted_close,
            final(self).phase == old(self).phase,
            final(self).data == old(self).data,
    {
        if !contains_kind(&self.open_styles, kind) {
            self.emit(Event::StartTextStyle { kind, id: None });
            self.open_styles.push(kind);
        }
    }

    /// Opens the run's styles before its first content.
    fn emit_deferred_styles_if_needed(&mut self, p: Option<&RunProps>, content_emitted: &mut bool)
        ensures
            *final(content_emitted),
            *old(content_emitted) ==> final(self).qv() == old(self).qv() && final(self).open_styles == old(self).open_styles,
            !*old(content_emitted) ==> final(self).open_styles@ == with_styles_opened(old(self).open_styles@, spec_run_styles(p))
                && final(self).qv() == old(self).qv() + style_start_events(final(self).open_styles@.skip(old(self).open_styles@.len() as int)),
            table_free(final(self).qv(), old(self).qv().len() as int),
            old(self).qv().is_prefix_of(final(self).qv()),
            final(self).pos == old(self).pos,
            final(self).list_stack == old(self).list_stack,
            final(self).list_counters == old(self).list_counters,
            final(self).pending_preformatted_close == old(self).pending_preformatted_close,
            final(self).phase == old(self).phase,
            final(self).data == old(self).data,
    {
        if *content_emitted {
            return;
        }
        let styles = resolved_run_styles(p);
        let mut i: usize = 0;
        let ghost o0 = self.open_styles@;
        while i < styles.len()
            invariant
                i <= styles@.len(),
                styles@ == spec_run_styles(p),
                o0 == old(self).open_styles@,
                self.open_styles@ == with_styles_opened(o0, styles@.take(i as int)),
                o0.is_prefix_of(self.open_styles@),
                self.qv() == old(self).qv() + style_start_events(self.open_styles@.skip(o0.len() as int)),
                old(self).qv().is_prefix_of(self.qv()),
                self.phase == old(self).phase || self.phase == Phase::Finished,
                self.pos == old(self).pos,
                self.list_stack == old(self).list_stack,
                self.list_counters == old(self).list_counters,
                self.pending_preformatted_close == old(self).pending_preformatted_close,
                self.phase == old(self).phase,
                self.data == old(self).data,
            decreases styles@.len() - i,
        {
            let ghost o1 = self.open_styles@;
            let ghost q1 = self.qv();
            self.emit_style_if_not_open(styles[i]);
            proof {
                assert(styles@.take(i + 1).drop_last() =~= styles@.take(i as int));
                lemma_styles_opened_extends(o0, styles@.take(i + 1));
                if !o1.contains(styles@[i as int]) {
                    assert(self.open_styles@.skip(o0.len() as int) =~= o1.skip(o0.len() as int).push(styles@[i as int]));
                    assert(style_start_events(self.open_styles@.skip(o0.len() as int))
                        =~= style_start_events(o1.skip(o0.len() as int)).push(EventView::StartTextStyle { kind: styles@[i as int], id: None }));
                }
            }
            i = i + 1;
        }
        proof {
            assert(styles@.take(styles@.len() as int) =~= styles@);
            let added = style_start_events(self.open_styles@.skip(o0.len() as int));
            assert(table_free(added, 0));
            lemma_table_free_append(old(self).qv(), added);
        }
        *content_emitted = true;
    }

    /// Closes the run's styles that are still open, last opened first.
    fn close_run_styles(&mut self, p: Option<&RunProps>)
        ensures
            final(self).open_styles@ == with_styles_closed(old(self).open_styles@, spec_run_styles(p)),
            final(self).open_styles@.len() <= old(self).open_styles@.len(),
            final(self).qv() == old(self).qv() + end_text_styles((old(self).open_styles@.len() - final(self).open_styles@.len()) as nat),
            table_free(final(self).qv(), old(self).qv().len() as int),
            old(self).qv().is_prefix_of(final(self).qv()),
            final(self).pos == old(self).pos,
            final(self).list_stack == old(self).list_stack,
            final(self).list_counters == old(self).list_counters,
            final(self).pending_preformatted_close == old(self).pending_preformatted_close,
            final(self).phase == old(self).phase,
            final(self).data == old(self).data,
    {
        let styles = resolved_run_styles(p);
        let mut i: usize = styles.len();
        assert(styles@.take(styles@.len() as int) =~= styles@);
        while i > 0
            invariant
                i <= styles@.len(),
                styles@ == spec_run_styles(p),
                with_styles_closed(old(self).open_styles@, styles@) == with_styles_closed(self.open_styles@, styles@.take(i as int)),
                self.open_styles@.len() <= old(self).open_styles@.len(),
                self.qv() == old(self).qv() + end_text_styles((old(self).open_styles@.len() - self.open_styles@.len()) as nat),
                old(self).qv().is_prefix_of(self.qv()),
                self.phase == old(self).phase || self.phase == Phase::Finished,
                self.pos == old(self).pos,
                self.list_stack == old(self).list_stack,
                self.list_counters == old(self).list_counters,
                self.pending_preformatted_close == old(self).pending_preformatted_close,
                self.phase == old(self).phase,
                self.data == old(self).data,
            decreases i,
        {
            assert(styles@.take(i as int).drop_last() =~= styles@.take(i - 1));
            i = i - 1;
            let kind = styles[i];
            let mut j: usize = self.open_styles.len();
            while j > 0
                invariant
                    j <= self.open_styles@.len(),
                    forall|k: int| j <= k < self.open_styles@.len() ==> self.open_styles@[k] != kind,
                ensures
                    j <= self.open_styles@.len(),
                    forall|k: int| j <= k < self.open_styles@.len() ==> self.open_styles@[k] != kind,
                    j > 0 ==> self.open_styles@[j - 1] == kind,
                decreases j,
            {
                if self.open_styles[j - 1] == kind {
                    break;
                }
                j = j - 1;
            }
            proof {
                lemma_last_index_of(self.open_styles@, kind);
                if j > 0 {
                    assert(last_index_of(self.open_styles@, kind) == j - 1);
                } else {
                    assert(last_index_of(self.open_styles@, kind) == -1);
                }
            }
            if j > 0 {
                let ghost n1 = (old(self).open_styles@.len() - self.open_styles@.len()) as nat;
                self.open_styles.remove(j - 1);
                self.emit(Event::EndTextStyle);
                assert(end_text_styles(n1 + 1) =~= end_text_styles(n1).push(EventView::EndTextStyle));
            }
        }
        proof {
            let n = (old(self).open_styles@.len() - self.open_styles@.len()) as nat;
            assert(table_free(end_text_styles(n), 0));
            lemma_table_free_append(old(self).qv(), end_text_styles(n));
        }
    }

    fn emit_text(&mut self, content: String)
        ensures
            final(self).qv() == old(self).qv().push(EventView::Text { content: content@ }),
            final(self).pos == old(self).pos,
            final(self).list_stack == old(self).list_stack,
            final(self).list_counters == old(self).list_counters,
            final(self).pending_preformatted_close == old(self).pending_preformatted_close,
            final(self).open_styles == old(self).open_styles,
            final(self).phase == old(self).phase,
            final(self).data == old(self).data,
    {
        self.emit(Event::Text { content });
    }

    fn handle_run_child_start(&mut self, toks: &Vec<XmlToken>, tag: &XmlTag, props: &mut Option<RunProps>, content_emitted: &mut bool) -> (r: Result<(), DocxError>)
        requires
            old(self).wf(),
            old(self).pos <= toks@.len(),
        ensures
            old(self).frame(&*final(self), toks@.len() as nat),
            r is Err ==> r->Err_0 is Parse,
            r is Ok ==> table_free(final(self).qv(), old(self).qv().len() as int),
            match spec_run_child(old(self).data.style_list@, toks@, old(self).pos as int, *tag,
                !*old(content_emitted) && old(props).is_none()) {
                Ok((p, o)) => r is Ok && final(self).pos == p && o == (!*final(content_emitted) && final(props).is_none()),
                Err(m) => r is Err && crate::events::is_parse_error(r->Err_0, m),
            },
            local_name(tag.name@) == "t"@ ==> match spec_text(toks@, old(self).pos as int, Seq::empty()) {
                Ok((v, p)) => {
                    let text = spec_run_text(props_ref(old(props)), v);
                    &&& r is Ok
                    &&& final(self).pos == p
                    &&& text.len() == 0 ==> final(self).qv() == old(self).qv()
                    &&& text.len() > 0 ==> final(self).qv() == old(self).qv()
                        + deferred_style_events(old(self).open_styles@, props_ref(old(props)), *old(content_emitted))
                        + seq![EventView::Text { content: text }]
                },
                Err(m) => r is Err && crate::events::is_parse_error(r->Err_0, m),
            },
            (local_name(tag.name@) == "tab"@ || local_name(tag.name@) == "br"@) ==> {
                let ev = if local_name(tag.name@) == "tab"@ { EventView::Text { content: seq!['\t'] } } else { EventView::LineBreak };
                &&& final(self).qv() == old(self).qv()
                    + deferred_style_events(old(self).open_styles@, props_ref(old(props)), *old(content_emitted))
                    + seq![ev]
                &&& match spec_skip(toks@, old(self).pos as int, tag.name@, 0) {
                    Ok(p) => r is Ok && final(self).pos == p,
                    Err(m) => r is Err && crate::events::is_parse_error(r->Err_0, doc_msg(m)),
                }
            },
            (local_name(tag.name@) == "drawing"@ || local_name(tag.name@) == "pict"@) ==> {
                let pre = old(self).qv() + deferred_style_events(old(self).open_styles@, props_ref(old(props)), *old(content_emitted));
                &&& pre.is_prefix_of(final(self).qv())
                &&& final(self).phase != Phase::Finished ==> only_images(final(self).qv(), pre.len() as int)
            },
            !(local_name(tag.name@) == "rPr"@ || local_name(tag.name@) == "t"@ || local_name(tag.name@) == "tab"@
                || local_name(tag.name@) == "br"@ || local_name(tag.name@) == "drawing"@
                || local_name(tag.name@) == "pict"@) ==> final(self).qv() == old(self).qv(),
    {
        proof {
            reveal_strlit("t");
            reveal_strlit("rPr");
            reveal_strlit("tab");
            reveal_strlit("br");
            reveal_strlit("drawing");
            reveal_strlit("pict");
            reveal_strlit("\t");
            assert("rPr"@[0] != "tab"@[0] && "rPr"@[0] != "br"@[0] && "rPr"@[0] != "t"@[0]);
            assert("t"@.len() != "tab"@.len() && "t"@.len() != "br"@.len() && "tab"@.len() != "br"@.len());
            assert("drawing"@.len() != "pict"@.len() && "drawing"@[0] != "rPr"@[0] && "drawing"@[0] != "t"@[0]
                && "drawing"@[0] != "br"@[0]);
            assert("pict"@[0] != "rPr"@[0] && "pict"@[0] != "t"@[0] && "pict"@[0] != "br"@[0]);
        }
        let local = local_name_of(tag.name.as_str());
        let l = local.as_str();
        if str_eq(l, "rPr") && !*content_emitted && props.is_none() {
            *props = Some(self.parse_rpr(toks)?);
        } else if str_eq(l, "rPr") {
            self.skip_subtree(toks, tag.name.as_str())?;
        } else if str_eq(l, "t") {
            let text = self.collect_text_content(toks)?;
            let pr = props.as_ref();
            assert(pr == props_ref(old(props)));
            let text = normalize_symbol_text(pr, text);
            if !str_is_empty(text.as_str()) {
                self.emit_deferred_styles_if_needed(pr, content_emitted);
                self.emit_text(text);
            }
            proof { lemma_table_free_step(old(self).qv(), self.qv(), old(self).qv().len() as int); }

        } else if str_eq(l, "tab") {
            self.emit_deferred_styles_if_needed(props.as_ref(), content_emitted);
            let tab = String::from_str("\t");
            assert(tab@ =~= seq!['\t']);
            self.emit_text(tab);
            self.skip_subtree(toks, tag.name.as_str())?;
            proof { lemma_table_free_step(old(self).qv(), self.qv(), old(self).qv().len() as int); }
        } else if str_eq(l, "br") {
            self.emit_deferred_styles_if_needed(props.as_ref(), content_emitted);
            self.emit(Event::LineBreak);
            self.skip_subtree(toks, tag.name.as_str())?;
            proof { lemma_table_free_step(old(self).qv(), self.qv(), old(self).qv().len() as int); }
        } else if str_eq(l, "drawing") {
            self.emit_deferred_styles_if_needed(props.as_ref(), content_emitted);
            let ghost mid = self.qv();
            self.parse_drawing_subtree(toks)?;
            proof { lemma_table_free_step(mid, self.qv(), old(self).qv().len() as int); }
        } else if str_eq(l, "pict") {
            self.emit_deferred_styles_if_needed(props.as_ref(), content_emitted);
            let ghost mid = self.qv();
            self.parse_pict_subtree(toks)?;
            proof { lemma_table_free_step(mid, self.qv(), old(self).qv().len() as int); }
        } else if str_eq(l, "instrText") || str_eq(l, "fldChar") || is_denied_container(l) {
            self.skip_subtree(toks, tag.name.as_str())?;
        }
        Ok(())
    }

    fn handle_run_child_empty(&mut self, tag: &XmlTag, props: &mut Option<RunProps>, content_emitted: &mut bool)
        requires
            old(self).wf(),
        ensures
            final(self).wf(),
            spec_run_empty_child(*tag, !*old(content_emitted) && old(props).is_none())
                == (!*final(content_emitted) && final(props).is_none()),
            !(!*old(content_emitted) && old(props).is_none()) ==> !(!*final(content_emitted) && final(props).is_none()),
            old(self).qv().is_prefix_of(final(self).qv()),
            final(self).pos == old(self).pos,
            final(self).data == old(self).data,
            final(self).phase == old(self).phase,
            (local_name(tag.name@) == "tab"@ || local_name(tag.name@) == "br"@) ==> {
                let ev = if local_name(tag.name@) == "tab"@ { EventView::Text { content: seq!['\t'] } } else { EventView::LineBreak };
                final(self).qv() == old(self).qv()
                    + deferred_style_events(old(self).open_styles@, props_ref(old(props)), *old(content_emitted))
                    + seq![ev]
            },
            table_free(final(self).qv(), old(self).qv().len() as int),
            local_name(tag.name@) == "sym"@ ==> match spec_sym_text(props_ref(old(props)), *tag) {
                Some(text) => final(self).qv() == old(self).qv()
                    + deferred_style_events(old(self).open_styles@, props_ref(old(props)), *old(content_emitted))
                    + seq![EventView::Text { content: text }],
                None => final(self).qv() == old(self).qv(),
            },
    {
        proof {
            reveal_strlit("rPr");
            reveal_strlit("tab");
            reveal_strlit("br");
            reveal_strlit("sym");
            reveal_strlit("\t");
            assert("rPr"@[0] != "tab"@[0] && "rPr"@[0] != "br"@[0] && "rPr"@[0] != "sym"@[0]);
            assert("tab"@[0] != "br"@[0] && "tab"@[0] != "sym"@[0] && "br"@[0] != "sym"@[0]);
        }
        let local = local_name_of(tag.name.as_str());
        let l = local.as_str();
        if str_eq(l, "rPr") && !*content_emitted && props.is_none() {
            *props = Some(RunProps { kinds: Vec::new(), text_color: None, mark: None, font: None });
        } else if str_eq(l, "tab") {
            self.emit_deferred_styles_if_needed(props.as_ref(), content_emitted);
            let tab = String::from_str("\t");
            assert(tab@ =~= seq!['\t']);
            self.emit_text(tab);
        } else if str_eq(l, "br") {
            self.emit_deferred_styles_if_needed(props.as_ref(), content_emitted);
            self.emit(Event::LineBreak);
        } else if str_eq(l, "sym") {
            let pr = props.as_ref();
            assert(pr == props_ref(old(props)));
            if let Some(text) = resolve_sym_char(pr, tag) {
                self.emit_deferred_styles_if_needed(pr, content_emitted);
                self.emit_text(text);
            }
        }
    }

    /// Reads the rest of a `<w:r>`: its properties, then its text, tabs,
    /// breaks, symbols and images, inside its styles.
    fn parse_r(&mut self, toks: &Vec<XmlToken>) -> (r: Result<(), DocxError>)
        requires
            old(self).wf(),
            old(self).pos <= toks@.len(),
        ensures
            old(self).frame(&*final(self), toks@.len() as nat),
            r is Err ==> r->Err_0 is Parse,
            r is Ok ==> table_free(final(self).qv(), old(self).qv().len() as int),
            match spec_run_scan(old(self).data.style_list@, toks@, old(self).pos as int, true) {
                Ok(p) => r is Ok && final(self).pos == p,
                Err(m) => r is Err && crate::events::is_parse_error(r->Err_0, m),
            },
    {
        let mut props: Option<RunProps> = None;
        let mut content_emitted = false;
        loop
            invariant
                spec_run_scan(old(self).data.style_list@, toks@, old(self).pos as int, true)
                    == spec_run_scan(self.data.style_list@, toks@, self.pos as int, !content_emitted && props.is_none()),
                table_free(self.qv(), old(self).qv().len() as int),
                self.wf(),
                old(self).pos <= self.pos <= toks@.len(),
                old(self).qv().is_prefix_of(self.qv()),
                self.phase == old(self).phase || self.phase == Phase::Finished,
                self.data == old(self).data,
            decreases toks@.len() - self.pos,
        {
            let before = self.pos;
            match self.next_tok(toks) {
                Some(XmlToken::Start(t)) => {
                    let ghost mid = self.qv();
                    self.handle_run_child_start(toks, t, &mut props, &mut content_emitted)?;
                    proof { lemma_table_free_step(mid, self.qv(), old(self).qv().len() as int); }
                },
                Some(XmlToken::Empty(t)) => {
                    let ghost mid = self.qv();
                    self.handle_run_child_empty(t, &mut props, &mut content_emitted);
                    proof { lemma_table_free_step(mid, self.qv(), old(self).qv().len() as int); }
                },
                Some(XmlToken::End(n)) => {
                    if local_is(n.as_str(), "r") {
                        if content_emitted {
                            let ghost mid = self.qv();
                            self.close_run_styles(props.as_ref());
                            proof { lemma_table_free_step(mid, self.qv(), old(self).qv().len() as int); }
                        }
                        return Ok(());
                    }
                },
                Some(XmlToken::GeneralRef(name)) => {
                    let text = Parser::decode_general_ref(name.as_str())?;
                    if !str_is_empty(text.as_str()) {
                        let ghost mid = self.qv();
                        self.emit_deferred_styles_if_needed(props.as_ref(), &mut content_emitted);
                        self.emit_text(text);
                        proof { lemma_table_free_step(mid, self.qv(), old(self).qv().len() as int); }
                    }
                },
                Some(XmlToken::Malformed(m)) => {
                    return Err(reader_error(m.as_str()));
                },
                Some(XmlToken::Eof) => {
                    if content_emitted {
                        let ghost mid = self.qv();
                        self.close_run_styles(props.as_ref());
                        proof { lemma_table_free_step(mid, self.qv(), old(self).qv().len() as int); }
                    }
                    return Ok(());
                },
                None => {
                    if content_emitted {
                        let ghost mid = self.qv();
                        self.close_run_styles(props.as_ref());
                        proof { lemma_table_free_step(mid, self.qv(), old(self).qv().len() as int); }
                    }
                    return Ok(());
                },
                Some(_) => {},
            }
            assert(self.pos > before);
        }
    }
}


/// The state of a paragraph being read.
struct ParagraphParseState {
    props: ParagraphProps,
    properties_seen: bool,
    paragraph_emitted: bool,
    block_kind: ParagraphBlockKind,
    block_start_emitted: bool,
}

/// How reading a `<w:hyperlink>` ended.
pub enum HyperlinkParseEnd {
    HyperlinkClosed,
    ParagraphClosed,
    Eof,
}

/// The link a `<w:hyperlink>` opens: the target of its `r:id`, or `#anchor`
/// without one; its title is `w:tooltip` unescaped. None inside a code
/// block, for an unknown `r:id`, or without either attribute.
pub open spec fn spec_resolved_hyperlink(links: Map<Seq<char>, Seq<char>>, tag: XmlTag, is_preformatted: bool) -> Option<(Seq<char>, Option<Seq<char>>)> {
    let rid = lookup_exact(tag.attrs@, "r:id"@);
    let anchor = lookup_exact(tag.attrs@, "w:anchor"@);
    let title = decoded_attr(tag, "w:tooltip"@);
    if is_preformatted {
        None
    } else if rid is Some {
        if links.contains_key(rid->0) { Some((links[rid->0], title)) } else { None }
    } else if anchor is Some && anchor->0.len() > 0 {
        Some((seq!['#'] + anchor->0, title))
    } else {
        None
    }
}

/// Where reading the rest of a `<w:hyperlink>` from `pos` stops, with
/// `depth` hyperlinks open, and how it ends: at the end tag that closes it,
/// at the end of the paragraph, or at the end of input; or the reader's
/// message.
pub open spec fn spec_link_scan(styles: Seq<crate::styles::StyleView>, toks: Seq<XmlToken>, pos: int, depth: u32) -> Result<(int, HyperlinkParseEnd), Seq<char>>
    decreases toks.len() - pos,
{
    if pos < 0 || pos >= toks.len() {
        Ok((pos, HyperlinkParseEnd::Eof))
    } else {
        match toks[pos] {
            XmlToken::Start(t) => {
                let l = local_name(t.name@);
                if l == "r"@ {
                    match spec_run_scan(styles, toks, pos + 1, true) {
                        Ok(p) => if pos < p <= toks.len() { spec_link_scan(styles, toks, p, depth) } else { Ok((p, HyperlinkParseEnd::HyperlinkClosed)) },
                        Err(m) => Err(m),
                    }
                } else if l == "hyperlink"@ {
                    spec_link_scan(styles, toks, pos + 1, if depth == u32::MAX { depth } else { (depth + 1) as u32 })
                } else {
                    match spec_skip(toks, pos + 1, t.name@, 0) {
                        Ok(p) => if pos < p <= toks.len() { spec_link_scan(styles, toks, p, depth) } else { Ok((p, HyperlinkParseEnd::HyperlinkClosed)) },
                        Err(m) => Err(doc_msg(m)),
                    }
                }
            },
            XmlToken::End(n) => if local_name(n@) == "hyperlink"@ {
                if depth <= 1 { Ok((pos + 1, HyperlinkParseEnd::HyperlinkClosed)) } else { spec_link_scan(styles, toks, pos + 1, (depth - 1) as u32) }
            } else if local_name(n@) == "p"@ {
                Ok((pos + 1, HyperlinkParseEnd::ParagraphClosed))
            } else {
                spec_link_scan(styles, toks, pos + 1, depth)
            },
            XmlToken::Malformed(m) => Err(doc_msg(m@)),
            XmlToken::Eof => Ok((pos + 1, HyperlinkParseEnd::Eof)),
            _ => spec_link_scan(styles, toks, pos + 1, depth),
        }
    }
}

/// A hyperlink's content events `b` as emitted: inside `StartLink` and
/// `EndLink` when the link resolved; nothing when there is no content.
pub open spec fn link_wrapped(resolved: Option<(Seq<char>, Option<Seq<char>>)>, b: Seq<EventView>) -> Seq<EventView> {
    if b.len() == 0 {
        b
    } else {
        match resolved {
            Some((h, t)) => seq![EventView::StartLink { href: h, id: None, title: t }] + b + seq![EventView::EndLink],
            None => b,
        }
    }
}

impl Parser {
    fn resolved_hyperlink(&self, tag: &XmlTag, is_preformatted: bool) -> (r: Option<(String, Option<String>)>)
        ensures
            match spec_resolved_hyperlink(self.data.hyperlink_map@, *tag, is_preformatted) {
                Some((h, t)) => r matches Some((hh, tt)) && hh@ == h && sv(tt) == t,
                None => r is None,
            },
    {
        if is_preformatted {
            return None;
        }
        let rid = exact_attr(tag, "r:id");
        let anchor = exact_attr(tag, "w:anchor");
        let title = read_decoded_attribute(tag, "w:tooltip");
        let href = match rid {
            Some(r) => match self.data.hyperlink_map.get(r.as_str()) {
                Some(t) => t.to_owned(),
                None => {
                    return None;
                },
            },
            None => match anchor {
                Some(a) => {
                    if str_is_empty(a.as_str()) {
                        return None;
                    }
                    let h = concat_str("#", a.as_str());
                    proof { reveal_strlit("#"); }
                    h
                },
                None => {
                    return None;
                },
            },
        };
        Some((href, title))
    }

    /// The queue after a hyperlink's buffered events were emitted is the
    /// queue before it and the wrapped events.
    proof fn lemma_link_emitted(&self, q0: Seq<EventView>, res: Option<(Seq<char>, Option<Seq<char>>)>,
        b: Seq<Event>, resolved: Option<(String, Option<String>)>)
        requires
            match res {
                Some((h, t)) => resolved matches Some((hh, tt)) && hh@ == h && sv(tt) == t,
                None => resolved is None,
            },
            b.len() == 0 ==> self.qv() == q0,
            b.len() > 0 ==> match resolved {
                Some((h, t)) => self.qv() == q0
                    + seq![EventView::StartLink { href: h@, id: None, title: sv(t) }]
                    + events_view(b) + seq![EventView::EndLink],
                None => self.qv() == q0 + events_view(b),
            },
        ensures
            exists|bv: Seq<EventView>| self.qv() == q0 + link_wrapped(res, bv),
    {
        let bv = events_view(b);
        assert(bv.len() == b.len());
        if b.len() == 0 {
            assert(self.qv() =~= q0 + link_wrapped(res, bv));
        } else {
            match res {
                Some((h, t)) => {
                    assert(self.qv() =~= q0 + link_wrapped(res, bv));
                },
                None => {
                    assert(self.qv() =~= q0 + link_wrapped(res, bv));
                },
            }
        }
    }

    /// Emits a hyperlink's buffered run events, inside `StartLink`/`EndLink`
    /// when it resolved; nothing when it has no content.
    fn emit_buffered_hyperlink(&mut self, resolved: Option<(String, Option<String>)>, buffered: VecDeque<Event>)
        requires
            table_free(events_view(buffered@), 0),
        ensures
            table_free(final(self).qv(), old(self).qv().len() as int),
            buffered@.len() == 0 ==> final(self).qv() == old(self).qv(),
            buffered@.len() > 0 ==> match resolved {
                Some((h, t)) => final(self).qv() == old(self).qv()
                    + seq![EventView::StartLink { href: h@, id: None, title: sv(t) }]
                    + events_view(buffered@) + seq![EventView::EndLink],
                None => final(self).qv() == old(self).qv() + events_view(buffered@),
            },
            final(self).pos == old(self).pos,
            final(self).list_stack == old(self).list_stack,
            final(self).list_counters == old(self).list_counters,
            final(self).pending_preformatted_close == old(self).pending_preformatted_close,
            final(self).open_styles == old(self).open_styles,
            final(self).phase == old(self).phase,
            final(self).data == old(self).data,
    {
        if buffered.len() == 0 {
            return;
        }
        let mut b = buffered;
        match resolved {
            Some((href, title)) => {
                self.emit(Event::StartLink { href, id: None, title });
                let ghost q1 = self.queue@;
                self.queue.append(&mut b);
                assert(events_view(self.queue@) =~= events_view(q1) + events_view(buffered@));
                proof { lemma_table_free_append(events_view(q1), events_view(buffered@)); }
                self.emit(Event::EndLink);
            },
            None => {
                let ghost q1 = self.queue@;
                self.queue.append(&mut b);
                assert(events_view(self.queue@) =~= events_view(q1) + events_view(buffered@));
                proof { lemma_table_free_append(events_view(q1), events_view(buffered@)); }
            },
        }
    }

    /// Reads the rest of a `<w:hyperlink>`: its runs are buffered and then
    /// emitted inside the link; other children are skipped; nested
    /// hyperlinks are flattened. An end of paragraph or of input ends it.
    fn parse_hyperlink(&mut self, toks: &Vec<XmlToken>, tag: &XmlTag, is_preformatted: bool, is_empty: bool) -> (r: Result<HyperlinkParseEnd, DocxError>)
        requires
            old(self).wf(),
            old(self).pos <= toks@.len(),
        ensures
            old(self).frame(&*final(self), toks@.len() as nat),
            r is Err ==> r->Err_0 is Parse,
            r is Ok ==> exists|b: Seq<EventView>| final(self).qv() == old(self).qv()
                + link_wrapped(spec_resolved_hyperlink(old(self).data.hyperlink_map@, *tag, is_preformatted), b),
            r is Ok ==> table_free(final(self).qv(), old(self).qv().len() as int),
            is_empty ==> r == Ok::<HyperlinkParseEnd, DocxError>(HyperlinkParseEnd::HyperlinkClosed) && final(self).pos == old(self).pos,
            !is_empty ==> match spec_link_scan(old(self).data.style_list@, toks@, old(self).pos as int, 1) {
                Ok((p, e)) => r == Ok::<HyperlinkParseEnd, DocxError>(e) && final(self).pos == p,
                Err(m) => r is Err && crate::events::is_parse_error(r->Err_0, m),
            },
    {
        let resolved = self.resolved_hyperlink(tag, is_preformatted);
        let ghost res = spec_resolved_hyperlink(self.data.hyperlink_map@, *tag, is_preformatted);
        let mut buffered: VecDeque<Event> = VecDeque::new();
        if is_empty {
            self.emit_buffered_hyperlink(resolved, buffered);
            proof { self.lemma_link_emitted(old(self).qv(), res, buffered@, resolved); }
            return Ok(HyperlinkParseEnd::HyperlinkClosed);
        }
        let mut nested_depth: u32 = 1;
        while nested_depth > 0
            invariant
                !is_empty,
                nested_depth > 0 ==> spec_link_scan(old(self).data.style_list@, toks@, old(self).pos as int, 1)
                    == spec_link_scan(self.data.style_list@, toks@, self.pos as int, nested_depth),
                nested_depth == 0 ==> spec_link_scan(old(self).data.style_list@, toks@, old(self).pos as int, 1)
                    == Ok::<(int, HyperlinkParseEnd), Seq<char>>((self.pos as int, HyperlinkParseEnd::HyperlinkClosed)),
                self.wf(),
                old(self).pos <= self.pos <= toks@.len(),
                self.qv() == old(self).qv(),
                table_free(events_view(buffered@), 0),
                res == spec_resolved_hyperlink(old(self).data.hyperlink_map@, *tag, is_preformatted),
                match res {
                    Some((h, t)) => resolved matches Some((hh, tt)) && hh@ == h && sv(tt) == t,
                    None => resolved is None,
                },
                old(self).qv().is_prefix_of(self.qv()),
                self.phase == old(self).phase || self.phase == Phase::Finished,
                self.data == old(self).data,
            decreases toks@.len() - self.pos,
        {
            match self.next_tok(toks) {
                Some(XmlToken::Start(t)) => {
                    let local = local_name_of(t.name.as_str());
                    if str_eq(local.as_str(), "r") {
                        let existing_len = self.queue.len();
                        let ghost q0 = self.qv();
                        self.parse_r(toks)?;
                        let ghost after = self.queue@;
                        let mut appended = self.queue.split_off(existing_len);
                        assert(events_view(self.queue@) =~= q0);
                        proof {
                            assert(appended@ =~= after.subrange(existing_len as int, after.len() as int));
                            assert forall|i: int| 0 <= i < events_view(appended@).len()
                                implies !is_table_structure(#[trigger] events_view(appended@)[i]) by {
                                assert(events_view(appended@)[i] == events_view(after)[i + existing_len]);
                            }
                        }
                        let ghost b0 = buffered@;
                        let ghost a0 = appended@;
                        buffered.append(&mut appended);
                        proof {
                            assert(events_view(buffered@) =~= events_view(b0) + events_view(a0));
                            lemma_concat_table_free(events_view(b0), events_view(a0));
                        }
                    } else if str_eq(local.as_str(), "hyperlink") {
                        nested_depth = nested_depth.saturating_add(1);
                    } else {
                        self.skip_subtree(toks, t.name.as_str())?;
                    }
                },
                Some(XmlToken::End(n)) => {
                    if local_is(n.as_str(), "hyperlink") {
                        nested_depth = nested_depth - 1;
                    } else if local_is(n.as_str(), "p") {
                        let ghost b = buffered@;
                        self.emit_buffered_hyperlink(resolved, buffered);
                        proof { self.lemma_link_emitted(old(self).qv(), res, b, resolved); }
                        return Ok(HyperlinkParseEnd::ParagraphClosed);
                    }
                },
                Some(XmlToken::Malformed(m)) => {
                    return Err(reader_error(m.as_str()));
                },
                Some(XmlToken::Eof) => {
                    let ghost b = buffered@;
                    self.emit_buffered_hyperlink(resolved, buffered);
                    proof { self.lemma_link_emitted(old(self).qv(), res, b, resolved); }
                    return Ok(HyperlinkParseEnd::Eof);
                },
                None => {
                    let ghost b = buffered@;
                    self.emit_buffered_hyperlink(resolved, buffered);
                    proof { self.lemma_link_emitted(old(self).qv(), res, b, resolved); }
                    return Ok(HyperlinkParseEnd::Eof);
                },
                Some(_) => {},
            }
        }
        let ghost b = buffered@;
        self.emit_buffered_hyperlink(resolved, buffered);
        proof { self.lemma_link_emitted(old(self).qv(), res, b, resolved); }
        Ok(HyperlinkParseEnd::HyperlinkClosed)
    }

    /// Reads the rest of a `<w:numPr>`: `w:numId` and `w:ilvl` (an absent
    /// level is 0); none without a `numId`.
    fn parse_numpr(&mut self, toks: &Vec<XmlToken>) -> (r: Result<Option<(u32, u32)>, DocxError>)
        requires
            old(self).wf(),
            old(self).pos <= toks@.len(),
        ensures
            old(self).frame(&*final(self), toks@.len() as nat),
            final(self).queue == old(self).queue,
            final(self).list_stack == old(self).list_stack,
            final(self).phase == old(self).phase,
            r is Err ==> r->Err_0 is Parse,
            match spec_numpr(toks@, old(self).pos as int, None, None) {
                Ok((v, p)) => r matches Ok(x) && x == v && final(self).pos == p,
                Err(m) => r is Err && crate::events::is_parse_error(r->Err_0, m),
            },
    {
        let mut num_id: Option<u32> = None;
        let mut ilvl: Option<u32> = None;
        loop
            invariant
                self.wf(),
                old(self).pos <= self.pos <= toks@.len(),
                spec_numpr(toks@, old(self).pos as int, None, None) == spec_numpr(toks@, self.pos as int, num_id, ilvl),
                self.queue == old(self).queue,
                self.list_stack == old(self).list_stack,
                self.phase == old(self).phase,
                self.data == old(self).data,
            decreases toks@.len() - self.pos,
        {
            match self.next_tok(toks) {
                Some(XmlToken::Empty(t)) => {
                    if str_eq(t.name.as_str(), "w:numId") {
                        num_id = match exact_attr(t, "w:val") {
                            Some(v) => crate::text::parse_u32(v.as_str()),
                            None => None,
                        };
                    } else if str_eq(t.name.as_str(), "w:ilvl") {
                        ilvl = match exact_attr(t, "w:val") {
                            Some(v) => crate::text::parse_u32(v.as_str()),
                            None => None,
                        };
                    }
                },
                Some(XmlToken::Start(t)) => {
                    self.skip_subtree(toks, t.name.as_str())?;
                },
                Some(XmlToken::End(n)) => {
                    if str_eq(n.as_str(), "w:numPr") {
                        return Ok(match num_id {
                            Some(n) => Some((n, match ilvl { Some(l) => l, None => 0 })),
                            None => None,
                        });
                    }
                },
                Some(XmlToken::Malformed(m)) => {
                    return Err(reader_error(m.as_str()));
                },
                Some(XmlToken::Eof) => {
                    return Err(reader_error("unexpected EOF inside <w:numPr>"));
                },
                None => {
                    return Err(reader_error("unexpected EOF inside <w:numPr>"));
                },
                Some(_) => {},
            }
        }
    }

    /// The classification of the style named by a tag's `w:val`.
    fn classify_val(&self, tag: &XmlTag) -> (r: Option<StyleClassification>)
        ensures
            r == (match val_of(*tag) {
                Some(v) => if v.len() > 0 { crate::styles::spec_classify(self.data.style_list@, v) } else { None },
                None => None,
            }),
    {
        match read_val_attribute(tag) {
            Some(v) => if str_is_empty(v.as_str()) { None } else { self.data.style_list.classify(v.as_str()) },
            None => None,
        }
    }

    fn alignment_val(tag: &XmlTag) -> (r: Option<TextAlignment>)
        ensures
            r == (match val_of(*tag) {
                Some(v) => spec_parse_alignment(v),
                None => None,
            }),
    {
        match read_val_attribute(tag) {
            Some(v) => parse_alignment(v.as_str()),
            None => None,
        }
    }

    /// Reads the rest of a `<w:pPr>`: alignment (`w:jc`), paragraph style
    /// (`w:pStyle`, classified) and numbering (`w:numPr`).
    fn parse_ppr(&mut self, toks: &Vec<XmlToken>) -> (r: Result<ParagraphProps, DocxError>)
        requires
            old(self).wf(),
            old(self).pos <= toks@.len(),
        ensures
            old(self).frame(&*final(self), toks@.len() as nat),
            final(self).queue == old(self).queue,
            final(self).list_stack == old(self).list_stack,
            final(self).phase == old(self).phase,
            r is Err ==> r->Err_0 is Parse,
            match spec_ppr(old(self).data.style_list@, toks@, old(self).pos as int, empty_paragraph_props()) {
                Ok((v, p)) => r == Ok::<ParagraphProps, DocxError>(v) && final(self).pos == p,
                Err(m) => r is Err && crate::events::is_parse_error(r->Err_0, m),
            },
    {
        let mut props = ParagraphProps { alignment: None, classification: None, list_info: None };
        loop
            invariant
                self.wf(),
                old(self).pos <= self.pos <= toks@.len(),
                spec_ppr(old(self).data.style_list@, toks@, old(self).pos as int, empty_paragraph_props())
                    == spec_ppr(self.data.style_list@, toks@, self.pos as int, props),
                self.queue == old(self).queue,
                self.list_stack == old(self).list_stack,
                self.phase == old(self).phase,
                self.data == old(self).data,
            decreases toks@.len() - self.pos,
        {
            match self.next_tok(toks) {
                Some(XmlToken::Empty(t)) => {
                    let local = local_name_of(t.name.as_str());
                    if str_eq(local.as_str(), "jc") {
                        props.alignment = Parser::alignment_val(t);
                    } else if str_eq(local.as_str(), "pStyle") {
                        props.classification = self.classify_val(t);
                    }
                },
                Some(XmlToken::Start(t)) => {
                    let local = local_name_of(t.name.as_str());
                    if str_eq(local.as_str(), "jc") {
                        props.alignment = Parser::alignment_val(t);
                        self.skip_subtree(toks, t.name.as_str())?;
                    } else if str_eq(local.as_str(), "pStyle") {
                        props.classification = self.classify_val(t);
                        self.skip_subtree(toks, t.name.as_str())?;
                    } else if str_eq(local.as_str(), "numPr") {
                        props.list_info = self.parse_numpr(toks)?;
                    } else if str_eq(local.as_str(), "rPr") {
                        self.skip_subtree(toks, t.name.as_str())?;
                    }
                },
                Some(XmlToken::End(n)) => {
                    if local_is(n.as_str(), "pPr") {
                        return Ok(props);
                    }
                },
                Some(XmlToken::Malformed(m)) => {
                    return Err(reader_error(m.as_str()));
                },
                Some(XmlToken::Eof) => {
                    return Err(reader_error("unexpected EOF inside <w:pPr>"));
                },
                None => {
                    return Err(reader_error("unexpected EOF inside <w:pPr>"));
                },
                Some(_) => {},
            }
        }
    }
}


/// Where reading a child element of a paragraph that starts at `pos` (just
/// after its start tag) stops, whether the paragraph may still read its
/// properties afterwards (`open`: no properties read and no content
/// emitted yet), and whether the child ended the paragraph; or the reader's
/// message.
pub open spec fn spec_para_child(styles: Seq<crate::styles::StyleView>, toks: Seq<XmlToken>, pos: int, tag: XmlTag, open: bool) -> Result<(int, bool, bool), Seq<char>> {
    let l = local_name(tag.name@);
    let skipped = |still_open: bool| match spec_skip(toks, pos, tag.name@, 0) {
        Ok(p) => Ok::<(int, bool, bool), Seq<char>>((p, still_open, false)),
        Err(m) => Err(doc_msg(m)),
    };
    if l == "pPr"@ && open {
        match spec_ppr(styles, toks, pos, empty_paragraph_props()) {
            Ok((_, p)) => Ok((p, false, false)),
            Err(m) => Err(m),
        }
    } else if l == "pPr"@ {
        skipped(open)
    } else if l == "tab"@ || l == "br"@ {
        skipped(false)
    } else if l == "r"@ {
        match spec_run_scan(styles, toks, pos, true) {
            Ok(p) => Ok((p, false, false)),
            Err(m) => Err(m),
        }
    } else if l == "hyperlink"@ {
        match spec_link_scan(styles, toks, pos, 1) {
            Ok((p, e)) => Ok((p, false, !(e is HyperlinkClosed))),
            Err(m) => Err(m),
        }
    } else if l == "drawing"@ {
        match spec_subtree_scan(toks, pos, 1) {
            Ok((p, _)) => Ok((p, false, false)),
            Err(m) => Err(m),
        }
    } else if l == "pict"@ {
        match spec_subtree_scan(toks, pos, 1) {
            Ok((p, false)) => Ok((p, false, false)),
            Ok((_, true)) => Err("malformed document.xml: unexpected EOF inside <w:pict>"@),
            Err(m) => Err(m),
        }
    } else if spec_is_denied(l) {
        skipped(open)
    } else {
        Ok((pos, open, false))
    }
}

/// Whether a paragraph that may still read its properties (`open`) may do
/// so after an empty child element `tag`.
pub open spec fn spec_para_empty_child(tag: XmlTag, open: bool) -> bool {
    let l = local_name(tag.name@);
    if l == "pPr"@ && open {
        false
    } else if l == "tab"@ || l == "br"@ || l == "r"@ || l == "drawing"@ || l == "pict"@ || l == "hyperlink"@ {
        false
    } else {
        open
    }
}

/// Whether a paragraph's block has just been closed: its end is the last
/// event, or (for a code block) its close is deferred.
pub open spec fn closes_block(q: Seq<EventView>, pending_close: bool) -> bool {
    ||| pending_close
    ||| (q.len() > 0 && (q.last() is EndParagraph || q.last() is EndHeading || q.last() is EndBlockQuote))
}

/// How reading a paragraph ends: its block closed, or the document ended.
pub open spec fn ends_paragraph(q: Seq<EventView>, pending_close: bool, phase: Phase) -> bool {
    ||| closes_block(q, pending_close)
    ||| (phase == Phase::Finished && q.len() > 0 && q.last() == EventView::EndDocument)
}

impl Parser {
    fn ensure_local_paragraph_started(&mut self, state: &mut ParagraphParseState)
        requires
            old(self).wf(),
        ensures
            table_free(final(self).qv(), old(self).qv().len() as int),
            final(self).wf(),
            final(state).paragraph_emitted,
            final(state).block_kind == old(state).block_kind,
            old(self).qv().is_prefix_of(final(self).qv()),
            final(self).pos == old(self).pos,
            final(self).data == old(self).data,
            final(self).phase == old(self).phase,
    {
        if state.paragraph_emitted {
            return;
        }
        if !state.block_start_emitted {
            self.emit_paragraph_start_for_block(state.props, state.block_kind);
            state.block_start_emitted = true;
        }
        state.paragraph_emitted = true;
    }

    fn resolve_local_ppr(&mut self, state: &mut ParagraphParseState)
        requires
            old(self).wf(),
        ensures
            table_free(final(self).qv(), old(self).qv().len() as int),
            final(self).wf(),
            final(state).paragraph_emitted == old(state).paragraph_emitted,
            block_resolution(*old(self), *final(self), old(state).props,
                (final(state).block_kind, final(state).block_start_emitted)),
            final(state).props == old(state).props,
            final(state).properties_seen == old(state).properties_seen,
            old(self).qv().is_prefix_of(final(self).qv()),
            final(self).pos == old(self).pos,
            final(self).data == old(self).data,
            final(self).phase == old(self).phase,
    {
        let (kind, started) = self.resolve_paragraph_block_kind(state.props);
        state.block_kind = kind;
        state.block_start_emitted = started;
    }

    fn finish_paragraph_parse(&mut self, state: &mut ParagraphParseState)
        requires
            old(self).wf(),
        ensures
            final(state).paragraph_emitted,
            table_free(final(self).qv(), old(self).qv().len() as int),
            final(self).wf(),
            closes_block(final(self).qv(), final(self).pending_preformatted_close),
            old(self).qv().is_prefix_of(final(self).qv()),
            final(self).pos == old(self).pos,
            final(self).data == old(self).data,
            final(self).phase == old(self).phase,
    {
        self.ensure_local_paragraph_started(state);
        let ghost mid = self.qv();
        self.close_paragraph_block(state.block_kind);
        proof { lemma_table_free_step(mid, self.qv(), old(self).qv().len() as int); }
    }

    #[verifier::rlimit(40)]
    fn handle_paragraph_start_child(&mut self, toks: &Vec<XmlToken>, tag: &XmlTag, state: &mut ParagraphParseState) -> (r: Result<bool, DocxError>)
        requires
            old(self).wf(),
            old(self).pos <= toks@.len(),
        ensures
            r is Ok ==> table_free(final(self).qv(), old(self).qv().len() as int),
            old(self).frame(&*final(self), toks@.len() as nat),
            r is Err ==> r->Err_0 is Parse,
            r == Ok::<bool, DocxError>(true) ==> ends_paragraph(final(self).qv(), final(self).pending_preformatted_close, final(self).phase),
            match spec_para_child(old(self).data.style_list@, toks@, old(self).pos as int, *tag,
                !old(state).paragraph_emitted && !old(state).properties_seen) {
                Ok((p, o, ended)) => r == Ok::<bool, DocxError>(ended) && final(self).pos == p
                    && o == (!final(state).paragraph_emitted && !final(state).properties_seen),
                Err(m) => r is Err && crate::events::is_parse_error(r->Err_0, m),
            },
            (local_name(tag.name@) == "pPr"@ && !old(state).paragraph_emitted && !old(state).properties_seen) ==>
                match spec_ppr(old(self).data.style_list@, toks@, old(self).pos as int, empty_paragraph_props()) {
                    Ok((v, _)) => final(state).props == v,
                    Err(_) => true,
                },
    {
        let local = local_name_of(tag.name.as_str());
        let l = local.as_str();
        let ghost o = old(self).qv().len() as int;
        if str_eq(l, "pPr") && !state.paragraph_emitted && !state.properties_seen {
            state.props = self.parse_ppr(toks)?;
            state.properties_seen = true;
            self.resolve_local_ppr(state);
        } else if str_eq(l, "pPr") {
            self.skip_subtree(toks, tag.name.as_str())?;
        } else if str_eq(l, "tab") {
            self.ensure_local_paragraph_started(state);
            let ghost mid = self.qv();
            self.emit_text(String::from_str("\t"));
            self.skip_subtree(toks, tag.name.as_str())?;
            proof { lemma_table_free_step(mid, self.qv(), o); }
        } else if str_eq(l, "br") {
            self.ensure_local_paragraph_started(state);
            let ghost mid = self.qv();
            self.emit(Event::LineBreak);
            self.skip_subtree(toks, tag.name.as_str())?;
            proof { lemma_table_free_step(mid, self.qv(), o); }
        } else if str_eq(l, "r") {
            self.ensure_local_paragraph_started(state);
            let ghost mid = self.qv();
            self.parse_r(toks)?;
            proof { lemma_table_free_step(mid, self.qv(), o); }
        } else if str_eq(l, "hyperlink") {
            self.ensure_local_paragraph_started(state);
            let pre = matches!(state.block_kind, ParagraphBlockKind::Preformatted);
            let ghost mid = self.qv();
            let end = self.parse_hyperlink(toks, tag, pre, false)?;
            proof { lemma_table_free_step(mid, self.qv(), o); }
            match end {
                HyperlinkParseEnd::HyperlinkClosed => {},
                HyperlinkParseEnd::ParagraphClosed => {
                    let ghost mid2 = self.qv();
                    self.finish_paragraph_parse(state);
                    proof { lemma_table_free_step(mid2, self.qv(), o); }
                    return Ok(true);
                },
                HyperlinkParseEnd::Eof => {
                    let ghost mid2 = self.qv();
                    self.finish_paragraph_parse(state);
                    proof { lemma_table_free_step(mid2, self.qv(), o); }
                    let ghost mid3 = self.qv();
                    self.handle_eof();
                    proof { lemma_table_free_step(mid3, self.qv(), o); }
                    return Ok(true);
                },
            }
        } else if str_eq(l, "drawing") {
            self.ensure_local_paragraph_started(state);
            let ghost mid = self.qv();
            self.parse_drawing_subtree(toks)?;
            proof { lemma_table_free_step(mid, self.qv(), o); }
        } else if str_eq(l, "pict") {
            self.ensure_local_paragraph_started(state);
            let ghost mid = self.qv();
            self.parse_pict_subtree(toks)?;
            proof { lemma_table_free_step(mid, self.qv(), o); }
        } else if is_denied_container(l) {
            self.skip_subtree(toks, tag.name.as_str())?;
        }
        Ok(false)
    }

    fn handle_paragraph_empty_child(&mut self, toks: &Vec<XmlToken>, tag: &XmlTag, state: &mut ParagraphParseState) -> (r: Result<(), DocxError>)
        requires
            old(self).wf(),
            old(self).pos <= toks@.len(),
        ensures
            r is Ok ==> table_free(final(self).qv(), old(self).qv().len() as int),
            old(self).frame(&*final(self), toks@.len() as nat),
            r is Err ==> r->Err_0 is Parse,
            r is Ok,
            final(self).pos == old(self).pos,
            spec_para_empty_child(*tag, !old(state).paragraph_emitted && !old(state).properties_seen)
                == (!final(state).paragraph_emitted && !final(state).properties_seen),
            (local_name(tag.name@) == "pPr"@ && !old(state).paragraph_emitted && !old(state).properties_seen) ==>
                final(state).props == empty_paragraph_props(),
    {
        let local = local_name_of(tag.name.as_str());
        let l = local.as_str();
        if str_eq(l, "pPr") && !state.paragraph_emitted && !state.properties_seen {
            state.props = ParagraphProps { alignment: None, classification: None, list_info: None };
            state.properties_seen = true;
            self.resolve_local_ppr(state);
        } else if str_eq(l, "tab") {
            self.ensure_local_paragraph_started(state);
            self.emit_text(String::from_str("\t"));
        } else if str_eq(l, "br") {
            self.ensure_local_paragraph_started(state);
            self.emit(Event::LineBreak);
        } else if str_eq(l, "r") || str_eq(l, "drawing") || str_eq(l, "pict") {
            self.ensure_local_paragraph_started(state);
        } else if str_eq(l, "hyperlink") {
            self.ensure_local_paragraph_started(state);
            let pre = matches!(state.block_kind, ParagraphBlockKind::Preformatted);
            self.parse_hyperlink(toks, tag, pre, true)?;
        }
        Ok(())
    }

    /// Reads the rest of a `<w:p>`: its properties choose its block, which
    /// opens before its first content and closes at its end.
    fn parse_p(&mut self, toks: &Vec<XmlToken>) -> (r: Result<(), DocxError>)
        requires
            old(self).wf(),
            old(self).pos <= toks@.len(),
        ensures
            r is Ok ==> table_free(final(self).qv(), old(self).qv().len() as int),
            old(self).frame(&*final(self), toks@.len() as nat),
            r is Err ==> r->Err_0 is Parse,
            r is Ok ==> ends_paragraph(final(self).qv(), final(self).pending_preformatted_close, final(self).phase),
            match spec_para_scan(old(self).data.style_list@, toks@, old(self).pos as int, true) {
                Ok(p) => r is Ok && final(self).pos == p,
                Err(m) => r is Err && crate::events::is_parse_error(r->Err_0, m),
            },
    {
        let mut state = ParagraphParseState {
            props: ParagraphProps { alignment: None, classification: None, list_info: None },
            properties_seen: false,
            paragraph_emitted: false,
            block_kind: ParagraphBlockKind::Paragraph,
            block_start_emitted: false,
        };
        loop
            invariant
                spec_para_scan(old(self).data.style_list@, toks@, old(self).pos as int, true)
                    == spec_para_scan(self.data.style_list@, toks@, self.pos as int, !state.paragraph_emitted && !state.properties_seen),
                old(self).frame(&*self, toks@.len() as nat),
                table_free(self.qv(), old(self).qv().len() as int),
            decreases toks@.len() - self.pos,
        {
            match self.next_tok(toks) {
                Some(XmlToken::Start(t)) => {
                    let ghost mid = self.qv();
                    let done = self.handle_paragraph_start_child(toks, t, &mut state)?;
                    proof { lemma_table_free_step(mid, self.qv(), old(self).qv().len() as int); }
                    if done {
                        return Ok(());
                    }
                },
                Some(XmlToken::Empty(t)) => {
                    let ghost mid = self.qv();
                    self.handle_paragraph_empty_child(toks, t, &mut state)?;
                    proof { lemma_table_free_step(mid, self.qv(), old(self).qv().len() as int); }
                },
                Some(XmlToken::End(n)) => {
                    if local_is(n.as_str(), "p") {
                        let ghost mid = self.qv();
                        self.finish_paragraph_parse(&mut state);
                        proof { lemma_table_free_step(mid, self.qv(), old(self).qv().len() as int); }
                        return Ok(());
                    }
                },
                Some(XmlToken::Malformed(m)) => {
                    return Err(reader_error(m.as_str()));
                },
                Some(XmlToken::Eof) => {
                    let ghost mid = self.qv();
                    self.finish_paragraph_parse(&mut state);
                    proof { lemma_table_free_step(mid, self.qv(), old(self).qv().len() as int); }
                    let ghost mid2 = self.qv();
                    self.handle_eof();
                    proof { lemma_table_free_step(mid2, self.qv(), old(self).qv().len() as int); }
                    return Ok(());
                },
                None => {
                    let ghost mid = self.qv();
                    self.finish_paragraph_parse(&mut state);
                    proof { lemma_table_free_step(mid, self.qv(), old(self).qv().len() as int); }
                    let ghost mid2 = self.qv();
                    self.handle_eof();
                    proof { lemma_table_free_step(mid2, self.qv(), old(self).qv().len() as int); }
                    return Ok(());
                },
                Some(_) => {},
            }
        }
    }
}


/// The event that opens a table cell: a column header cell in a header
/// row, a data cell otherwise.
pub open spec fn cell_start_view(is_header: bool, colspan: Option<u32>) -> EventView {
    if is_header {
        EventView::StartTableHeader { scope: Some(TableHeaderScope::Column), abbr: None, colspan, rowspan: None, id: None }
    } else {
        EventView::StartTableCell { colspan, rowspan: None, id: None }
    }
}

/// The event that closes a table cell.
pub open spec fn cell_end_view(is_header: bool) -> EventView {
    if is_header { EventView::EndTableHeader } else { EventView::EndTableCell }
}

/// Whether `e` opens a cell of the given kind, whatever its span.
pub open spec fn opens_cell(e: EventView, is_header: bool) -> bool {
    exists|c: Option<u32>| e == cell_start_view(is_header, c)
}

/// What a cell adds to the queue `q0`: a start of the cell among the new
/// events, and its end last.
pub open spec fn is_cell_events(q0: Seq<EventView>, q: Seq<EventView>, is_header: bool) -> bool {
    &&& q0.is_prefix_of(q)
    &&& q.len() >= q0.len() + 2
    &&& exists|i: int| q0.len() <= i < q.len() - 1 && opens_cell(#[trigger] q[i], is_header)
    &&& q.last() == cell_end_view(is_header)
}

/// The column span of a cell read from `pos`: the `w:gridSpan` of its first
/// `w:tcPr`, if that comes before the cell's first paragraph or table.
pub open spec fn spec_cell_colspan(toks: Seq<XmlToken>, pos: int) -> Option<u32>
    decreases toks.len() - pos,
{
    if pos < 0 || pos >= toks.len() {
        None
    } else {
        match toks[pos] {
            XmlToken::Start(t) => {
                let l = local_name(t.name@);
                if l == "tcPr"@ {
                    match spec_tcpr(toks, pos + 1, None) {
                        Ok((c, _)) => c,
                        Err(_) => None,
                    }
                } else if l == "p"@ || l == "tbl"@ {
                    None
                } else if spec_is_denied(l) {
                    match spec_skip(toks, pos + 1, t.name@, 0) {
                        Err(_) => None,
                        Ok(p) => {
                            proof { lemma_skip_advances(toks, pos + 1, t.name@, 0); }
                            spec_cell_colspan(toks, p)
                        },
                    }
                } else {
                    spec_cell_colspan(toks, pos + 1)
                }
            },
            XmlToken::Empty(t) => {
                let l = local_name(t.name@);
                if l == "tcPr"@ || l == "p"@ { None } else { spec_cell_colspan(toks, pos + 1) }
            },
            XmlToken::End(n) => if local_name(n@) == "tc"@ { None } else { spec_cell_colspan(toks, pos + 1) },
            XmlToken::Malformed(_) => None,
            XmlToken::Eof => None,
            _ => spec_cell_colspan(toks, pos + 1),
        }
    }
}

/// Whether a row read from `pos` keeps the table's header band open: its
/// first `w:trPr` before any cell marks it as a header row, or it has no
/// cell and no `w:trPr`. A cell before any `w:trPr` makes it a data row.
pub open spec fn spec_row_band(toks: Seq<XmlToken>, pos: int) -> bool
    decreases toks.len() - pos,
{
    if pos < 0 || pos >= toks.len() {
        true
    } else {
        match toks[pos] {
            XmlToken::Start(t) => {
                let l = local_name(t.name@);
                if l == "trPr"@ {
                    match spec_trpr(toks, pos + 1, false) {
                        Ok((h, _)) => h,
                        Err(_) => true,
                    }
                } else if l == "tc"@ {
                    false
                } else if spec_is_denied(l) {
                    match spec_skip(toks, pos + 1, t.name@, 0) {
                        Err(_) => true,
                        Ok(p) => {
                            proof { lemma_skip_advances(toks, pos + 1, t.name@, 0); }
                            spec_row_band(toks, p)
                        },
                    }
                } else {
                    spec_row_band(toks, pos + 1)
                }
            },
            XmlToken::Empty(t) => {
                let l = local_name(t.name@);
                if l == "trPr"@ || l == "tc"@ { false } else { spec_row_band(toks, pos + 1) }
            },
            XmlToken::End(n) => if local_name(n@) == "tr"@ { true } else { spec_row_band(toks, pos + 1) },
            XmlToken::Malformed(_) => true,
            XmlToken::Eof => true,
            _ => spec_row_band(toks, pos + 1),
        }
    }
}

/// Where reading the rest of a paragraph from `pos` stops: after its end
/// tag, after the child that ended it, or at the end of input; or the
/// reader's message. `open` says whether it may still read its properties.
pub open spec fn spec_para_scan(styles: Seq<crate::styles::StyleView>, toks: Seq<XmlToken>, pos: int, open: bool) -> Result<int, Seq<char>>
    decreases toks.len() - pos,
{
    if pos < 0 || pos >= toks.len() {
        Ok(pos)
    } else {
        match toks[pos] {
            XmlToken::Start(t) => match spec_para_child(styles, toks, pos + 1, t, open) {
                Ok((p, o, ended)) => if ended {
                    Ok(p)
                } else if pos < p <= toks.len() {
                    spec_para_scan(styles, toks, p, o)
                } else {
                    Ok(p)
                },
                Err(m) => Err(m),
            },
            XmlToken::Empty(t) => spec_para_scan(styles, toks, pos + 1, spec_para_empty_child(t, open)),
            XmlToken::End(n) => if local_name(n@) == "p"@ { Ok(pos + 1) } else { spec_para_scan(styles, toks, pos + 1, open) },
            XmlToken::Malformed(m) => Err(doc_msg(m@)),
            XmlToken::Eof => Ok(pos + 1),
            _ => spec_para_scan(styles, toks, pos + 1, open),
        }
    }
}

/// Skipping the element whose start tag precedes `pos`, then going on with
/// `k`, as the table readers do for a denied or repeated child.
pub open spec fn skip_then(toks: Seq<XmlToken>, pos: int, name: Seq<char>) -> Result<int, Seq<char>> {
    match spec_skip(toks, pos, name, 0) {
        Ok(p) => Ok(p),
        Err(m) => Err(doc_msg(m)),
    }
}

/// Where reading the rest of a cell from `pos` stops: after its end tag;
/// or the reader's message. `open` says whether it may still read its
/// properties.
pub open spec fn spec_cell_scan(styles: Seq<crate::styles::StyleView>, toks: Seq<XmlToken>, pos: int, open: bool) -> Result<int, Seq<char>>
    decreases toks.len() - pos,
{
    if pos < 0 || pos >= toks.len() {
        Err("malformed document.xml: unexpected EOF inside <w:tc>"@)
    } else {
        match toks[pos] {
            XmlToken::Start(t) => {
                let l = local_name(t.name@);
                let child: Result<(int, bool), Seq<char>> = if l == "tcPr"@ && open {
                    match spec_tcpr(toks, pos + 1, None) {
                        Ok((_, p)) => Ok((p, false)),
                        Err(m) => Err(m),
                    }
                } else if l == "tcPr"@ {
                    match skip_then(toks, pos + 1, t.name@) { Ok(p) => Ok((p, open)), Err(m) => Err(m) }
                } else if l == "p"@ {
                    match spec_para_scan(styles, toks, pos + 1, true) { Ok(p) => Ok((p, false)), Err(m) => Err(m) }
                } else if l == "tbl"@ {
                    match spec_table_scan(styles, toks, pos + 1) { Ok(p) => Ok((p, false)), Err(m) => Err(m) }
                } else if spec_is_denied(l) {
                    match skip_then(toks, pos + 1, t.name@) { Ok(p) => Ok((p, open)), Err(m) => Err(m) }
                } else {
                    Ok((pos + 1, open))
                };
                match child {
                    Ok((p, o)) => if pos < p <= toks.len() { spec_cell_scan(styles, toks, p, o) } else { Err(Seq::empty()) },
                    Err(m) => Err(m),
                }
            },
            XmlToken::Empty(t) => {
                let l = local_name(t.name@);
                spec_cell_scan(styles, toks, pos + 1, open && !(l == "tcPr"@ || l == "p"@))
            },
            XmlToken::End(n) => if local_name(n@) == "tc"@ { Ok(pos + 1) } else { spec_cell_scan(styles, toks, pos + 1, open) },
            XmlToken::Malformed(m) => Err(doc_msg(m@)),
            XmlToken::Eof => Err("malformed document.xml: unexpected EOF inside <w:tc>"@),
            _ => spec_cell_scan(styles, toks, pos + 1, open),
        }
    }
}

/// Where reading the rest of a row from `pos` stops: after its end tag; or
/// the reader's message. `open` says whether it may still read its
/// properties.
pub open spec fn spec_row_scan(styles: Seq<crate::styles::StyleView>, toks: Seq<XmlToken>, pos: int, open: bool) -> Result<int, Seq<char>>
    decreases toks.len() - pos,
{
    if pos < 0 || pos >= toks.len() {
        Err("malformed document.xml: unexpected EOF inside <w:tr>"@)
    } else {
        match toks[pos] {
            XmlToken::Start(t) => {
                let l = local_name(t.name@);
                let child: Result<(int, bool), Seq<char>> = if l == "trPr"@ && open {
                    match spec_trpr(toks, pos + 1, false) {
                        Ok((_, p)) => Ok((p, false)),
                        Err(m) => Err(m),
                    }
                } else if l == "trPr"@ {
                    match skip_then(toks, pos + 1, t.name@) { Ok(p) => Ok((p, open)), Err(m) => Err(m) }
                } else if l == "tc"@ {
                    match spec_cell_scan(styles, toks, pos + 1, true) { Ok(p) => Ok((p, false)), Err(m) => Err(m) }
                } else if spec_is_denied(l) {
                    match skip_then(toks, pos + 1, t.name@) { Ok(p) => Ok((p, open)), Err(m) => Err(m) }
                } else {
                    Ok((pos + 1, open))
                };
                match child {
                    Ok((p, o)) => if pos < p <= toks.len() { spec_row_scan(styles, toks, p, o) } else { Err(Seq::empty()) },
                    Err(m) => Err(m),
                }
            },
            XmlToken::Empty(t) => {
                let l = local_name(t.name@);
                spec_row_scan(styles, toks, pos + 1, open && !(l == "trPr"@ || l == "tc"@))
            },
            XmlToken::End(n) => if local_name(n@) == "tr"@ { Ok(pos + 1) } else { spec_row_scan(styles, toks, pos + 1, open) },
            XmlToken::Malformed(m) => Err(doc_msg(m@)),
            XmlToken::Eof => Err("malformed document.xml: unexpected EOF inside <w:tr>"@),
            _ => spec_row_scan(styles, toks, pos + 1, open),
        }
    }
}

/// Where reading a child of a cell other than a paragraph or a table, whose
/// start tag `t` is at `pos`, stops, and whether the cell may still read its
/// properties.
pub open spec fn spec_cell_child(toks: Seq<XmlToken>, pos: int, t: XmlTag, open: bool) -> Result<(int, bool), Seq<char>> {
    let l = local_name(t.name@);
    if l == "tcPr"@ && open {
        match spec_tcpr(toks, pos + 1, None) {
            Ok((_, p)) => Ok((p, false)),
            Err(m) => Err(m),
        }
    } else if l == "tcPr"@ || spec_is_denied(l) {
        match skip_then(toks, pos + 1, t.name@) { Ok(p) => Ok((p, open)), Err(m) => Err(m) }
    } else {
        Ok((pos + 1, open))
    }
}

/// Whether the rest of a cell read from `pos` holds content: a paragraph
/// or a table among its children before its end tag, reading as
/// [`spec_cell_scan`] does.
pub open spec fn spec_cell_content(toks: Seq<XmlToken>, pos: int, open: bool) -> bool
    decreases toks.len() - pos,
{
    if pos < 0 || pos >= toks.len() {
        false
    } else {
        match toks[pos] {
            XmlToken::Start(t) => {
                let l = local_name(t.name@);
                if l == "p"@ || l == "tbl"@ {
                    true
                } else {
                    match spec_cell_child(toks, pos, t, open) {
                        Ok((p, o)) => if pos < p <= toks.len() { spec_cell_content(toks, p, o) } else { false },
                        Err(_) => false,
                    }
                }
            },
            XmlToken::Empty(t) => {
                let l = local_name(t.name@);
                l == "p"@ || spec_cell_content(toks, pos + 1, open && l != "tcPr"@)
            },
            XmlToken::End(n) => if local_name(n@) == "tc"@ { false } else { spec_cell_content(toks, pos + 1, open) },
            XmlToken::Malformed(_) => false,
            XmlToken::Eof => false,
            _ => spec_cell_content(toks, pos + 1, open),
        }
    }
}

/// One step of [`spec_cell_content`] past a child that is no paragraph or
/// table.
proof fn lemma_cell_content_child(toks: Seq<XmlToken>, pos: int, t: XmlTag, open: bool, p: int, o: bool)
    requires
        0 <= pos < toks.len(),
        toks[pos] == XmlToken::Start(t),
        local_name(t.name@) != "p"@,
        local_name(t.name@) != "tbl"@,
        spec_cell_child(toks, pos, t, open) == Ok::<(int, bool), Seq<char>>((p, o)),
        pos < p <= toks.len(),
    ensures
        spec_cell_content(toks, pos, open) == spec_cell_content(toks, p, o),
{
}

/// Where reading a child of a row other than a cell, whose start tag `t`
/// is at `pos`, stops, and whether the row may still read its properties.
pub open spec fn spec_row_child(toks: Seq<XmlToken>, pos: int, t: XmlTag, open: bool) -> Result<(int, bool), Seq<char>> {
    let l = local_name(t.name@);
    if l == "trPr"@ && open {
        match spec_trpr(toks, pos + 1, false) {
            Ok((_, p)) => Ok((p, false)),
            Err(m) => Err(m),
        }
    } else if l == "trPr"@ || spec_is_denied(l) {
        match skip_then(toks, pos + 1, t.name@) { Ok(p) => Ok((p, open)), Err(m) => Err(m) }
    } else {
        Ok((pos + 1, open))
    }
}

/// One step of [`spec_row_cells`] past a child that is no cell.
proof fn lemma_row_cells_child(styles: Seq<crate::styles::StyleView>, toks: Seq<XmlToken>, pos: int, t: XmlTag, open: bool, p: int, o: bool)
    requires
        0 <= pos < toks.len(),
        toks[pos] == XmlToken::Start(t),
        local_name(t.name@) != "tc"@,
        spec_row_child(toks, pos, t, open) == Ok::<(int, bool), Seq<char>>((p, o)),
        pos < p <= toks.len(),
    ensures
        spec_row_cells(styles, toks, pos, open) == spec_row_cells(styles, toks, p, o),
{
}

/// Whether the rest of a row read from `pos` holds a cell: a `w:tc` among
/// its children before its end tag, reading as [`spec_row_scan`] does.
pub open spec fn spec_row_cells(styles: Seq<crate::styles::StyleView>, toks: Seq<XmlToken>, pos: int, open: bool) -> bool
    decreases toks.len() - pos,
{
    if pos < 0 || pos >= toks.len() {
        false
    } else {
        match toks[pos] {
            XmlToken::Start(t) => {
                let l = local_name(t.name@);
                if l == "tc"@ {
                    true
                } else {
                    match spec_row_child(toks, pos, t, open) {
                        Ok((p, o)) => if pos < p <= toks.len() { spec_row_cells(styles, toks, p, o) } else { false },
                        Err(_) => false,
                    }
                }
            },
            XmlToken::Empty(t) => {
                let l = local_name(t.name@);
                l == "tc"@ || spec_row_cells(styles, toks, pos + 1, open && l != "trPr"@)
            },
            XmlToken::End(n) => if local_name(n@) == "tr"@ { false } else { spec_row_cells(styles, toks, pos + 1, open) },
            XmlToken::Malformed(_) => false,
            XmlToken::Eof => false,
            _ => spec_row_cells(styles, toks, pos + 1, open),
        }
    }
}

/// Where reading the rest of a table from `pos` stops: after its end tag;
/// or the reader's message.
pub open spec fn spec_table_scan(styles: Seq<crate::styles::StyleView>, toks: Seq<XmlToken>, pos: int) -> Result<int, Seq<char>>
    decreases toks.len() - pos,
{
    if pos < 0 || pos >= toks.len() {
        Err("malformed document.xml: unexpected EOF inside <w:tbl>"@)
    } else {
        match toks[pos] {
            XmlToken::Start(t) => {
                let l = local_name(t.name@);
                let child: Result<int, Seq<char>> = if l == "tr"@ {
                    spec_row_scan(styles, toks, pos + 1, true)
                } else if spec_is_denied(l) {
                    skip_then(toks, pos + 1, t.name@)
                } else {
                    Ok(pos + 1)
                };
                match child {
                    Ok(p) => if pos < p <= toks.len() { spec_table_scan(styles, toks, p) } else { Err(Seq::empty()) },
                    Err(m) => Err(m),
                }
            },
            XmlToken::End(n) => if local_name(n@) == "tbl"@ { Ok(pos + 1) } else { spec_table_scan(styles, toks, pos + 1) },
            XmlToken::Malformed(m) => Err(doc_msg(m@)),
            XmlToken::Eof => Err("malformed document.xml: unexpected EOF inside <w:tbl>"@),
            _ => spec_table_scan(styles, toks, pos + 1),
        }
    }
}

/// What a row adds to the queue `q0`: `StartTableRow` first and
/// `EndTableRow` last; a row without cells adds at most the close of a
/// pending code block.
pub open spec fn is_row_events(q0: Seq<EventView>, q: Seq<EventView>) -> bool {
    &&& q0.is_prefix_of(q)
    &&& {
        ||| (q.len() >= q0.len() + 2 && q[q0.len() as int] == (EventView::StartTableRow { id: None })
            && q.last() == EventView::EndTableRow)
        ||| q == q0
        ||| q == q0.push(EventView::EndPreformatted)
    }
}

/// What a table adds to the queue `q0`: a `StartTable` among the new
/// events, and `EndTable` last.
pub open spec fn is_table_events(q0: Seq<EventView>, q: Seq<EventView>) -> bool {
    &&& q0.is_prefix_of(q)
    &&& q.len() >= q0.len() + 2
    &&& exists|i: int| q0.len() <= i < q.len() - 1 && #[trigger] q[i] == (EventView::StartTable { id: None })
    &&& q.last() == EventView::EndTable
}

impl Parser {
    /// Reads the rest of a `<w:tcPr>`: the cell's `w:gridSpan`.
    fn parse_tcpr(&mut self, toks: &Vec<XmlToken>) -> (r: Result<Option<u32>, DocxError>)
        requires
            old(self).wf(),
            old(self).pos <= toks@.len(),
        ensures
            final(self).pending_preformatted_close == old(self).pending_preformatted_close,
            final(self).list_stack == old(self).list_stack,
            old(self).frame(&*final(self), toks@.len() as nat),
            final(self).queue == old(self).queue,
            final(self).phase == old(self).phase,
            r is Err ==> r->Err_0 is Parse,
            match spec_tcpr(toks@, old(self).pos as int, None) {
                Ok((v, p)) => r matches Ok(x) && x == v && final(self).pos == p,
                Err(m) => r is Err && crate::events::is_parse_error(r->Err_0, m),
            },
    {
        let mut colspan: Option<u32> = None;
        loop
            invariant
                self.pending_preformatted_close == old(self).pending_preformatted_close,
                self.list_stack == old(self).list_stack,
                self.wf(),
                old(self).pos <= self.pos <= toks@.len(),
                spec_tcpr(toks@, old(self).pos as int, None) == spec_tcpr(toks@, self.pos as int, colspan),
                self.queue == old(self).queue,
                self.phase == old(self).phase,
                self.data == old(self).data,
            decreases toks@.len() - self.pos,
        {
            match self.next_tok(toks) {
                Some(XmlToken::Empty(t)) => {
                    if local_is(t.name.as_str(), "gridSpan") {
                        colspan = parse_grid_span_value(opt_str(&read_val_attribute(t)));
                    }
                },
                Some(XmlToken::Start(t)) => {
                    if local_is(t.name.as_str(), "gridSpan") {
                        colspan = parse_grid_span_value(opt_str(&read_val_attribute(t)));
                    }
                    self.skip_subtree(toks, t.name.as_str())?;
                },
                Some(XmlToken::End(n)) => {
                    if local_is(n.as_str(), "tcPr") {
                        return Ok(colspan);
                    }
                },
                Some(XmlToken::Malformed(m)) => {
                    return Err(reader_error(m.as_str()));
                },
                Some(XmlToken::Eof) => {
                    return Err(reader_error("unexpected EOF inside <w:tcPr>"));
                },
                None => {
                    return Err(reader_error("unexpected EOF inside <w:tcPr>"));
                },
                Some(_) => {},
            }
        }
    }

    /// Reads the rest of a `<w:trPr>`: whether the row is a header row.
    fn parse_trpr(&mut self, toks: &Vec<XmlToken>) -> (r: Result<bool, DocxError>)
        requires
            old(self).wf(),
            old(self).pos <= toks@.len(),
        ensures
            old(self).frame(&*final(self), toks@.len() as nat),
            final(self).queue == old(self).queue,
            final(self).phase == old(self).phase,
            r is Err ==> r->Err_0 is Parse,
            match spec_trpr(toks@, old(self).pos as int, false) {
                Ok((v, p)) => r == Ok::<bool, DocxError>(v) && final(self).pos == p,
                Err(m) => r is Err && crate::events::is_parse_error(r->Err_0, m),
            },
    {
        let mut is_header = false;
        loop
            invariant
                self.wf(),
                old(self).pos <= self.pos <= toks@.len(),
                spec_trpr(toks@, old(self).pos as int, false) == spec_trpr(toks@, self.pos as int, is_header),
                self.queue == old(self).queue,
                self.phase == old(self).phase,
                self.data == old(self).data,
            decreases toks@.len() - self.pos,
        {
            match self.next_tok(toks) {
                Some(XmlToken::Empty(t)) => {
                    if local_is(t.name.as_str(), "tblHeader") {
                        is_header = parse_on_off(opt_str(&read_val_attribute(t)));
                    }
                },
                Some(XmlToken::Start(t)) => {
                    if local_is(t.name.as_str(), "tblHeader") {
                        is_header = parse_on_off(opt_str(&read_val_attribute(t)));
                    }
                    self.skip_subtree(toks, t.name.as_str())?;
                },
                Some(XmlToken::End(n)) => {
                    if local_is(n.as_str(), "trPr") {
                        return Ok(is_header);
                    }
                },
                Some(XmlToken::Malformed(m)) => {
                    return Err(reader_error(m.as_str()));
                },
                Some(XmlToken::Eof) => {
                    return Err(reader_error("unexpected EOF inside <w:trPr>"));
                },
                None => {
                    return Err(reader_error("unexpected EOF inside <w:trPr>"));
                },
                Some(_) => {},
            }
        }
    }

    fn emit_table_cell_start(&mut self, is_header: bool, colspan: Option<u32>)
        ensures
            final(self).qv() == old(self).qv().push(cell_start_view(is_header, colspan)),
            final(self).pos == old(self).pos,
            final(self).list_stack == old(self).list_stack,
            final(self).list_counters == old(self).list_counters,
            final(self).pending_preformatted_close == old(self).pending_preformatted_close,
            final(self).open_styles == old(self).open_styles,
            final(self).phase == old(self).phase,
            final(self).data == old(self).data,
    {
        if is_header {
            self.emit(Event::StartTableHeader { scope: Some(TableHeaderScope::Column), abbr: None, colspan, rowspan: None, id: None });
        } else {
            self.emit(Event::StartTableCell { colspan, rowspan: None, id: None });
        }
    }

    fn emit_empty_table_cell(&mut self, is_header: bool, colspan: Option<u32>)
        ensures
            final(self).qv() == old(self).qv().push(cell_start_view(is_header, colspan)).push(cell_end_view(is_header)),
            final(self).pos == old(self).pos,
            final(self).list_stack == old(self).list_stack,
            final(self).list_counters == old(self).list_counters,
            final(self).pending_preformatted_close == old(self).pending_preformatted_close,
            final(self).open_styles == old(self).open_styles,
            final(self).phase == old(self).phase,
            final(self).data == old(self).data,
    {
        self.emit_table_cell_start(is_header, colspan);
        if is_header {
            self.emit(Event::EndTableHeader);
        } else {
            self.emit(Event::EndTableCell);
        }
    }

    /// Reads the rest of a `<w:tc>`: the cell opens before its first
    /// paragraph or table and closes at its end, with open lists and a
    /// pending code block closed first; a cell without content is emitted
    /// empty.
    #[verifier::rlimit(100)]
    fn parse_tc(&mut self, toks: &Vec<XmlToken>, is_header: bool) -> (r: Result<(), DocxError>)
        requires
            old(self).wf(),
            old(self).pos <= toks@.len(),
        ensures
            old(self).frame(&*final(self), toks@.len() as nat),
            r is Err ==> r->Err_0 is Parse,
            r is Ok ==> is_cell_events(old(self).qv(), final(self).qv(), is_header),
            r is Ok ==> final(self).list_stack@.len() == 0 && !final(self).pending_preformatted_close,
            r is Ok && !is_header ==> no_header_cells(final(self).qv(), old(self).qv().len() as int),
            r is Ok ==> exists|i: int| old(self).qv().len() <= i < final(self).qv().len() - 1
                && #[trigger] final(self).qv()[i] == cell_start_view(is_header, spec_cell_colspan(toks@, old(self).pos as int)),
            r is Ok && old(self).list_stack@.len() == 0 && !old(self).pending_preformatted_close
                ==> final(self).qv()[old(self).qv().len() as int] == cell_start_view(is_header, spec_cell_colspan(toks@, old(self).pos as int)),
            r is Ok ==> table_nested(final(self).qv().skip(old(self).qv().len() as int)),
            r is Ok ==> cells_at_depth(final(self).qv().skip(old(self).qv().len() as int), Seq::empty(), 0, is_header),
            r is Ok && spec_cell_content(toks@, old(self).pos as int, true)
                ==> final(self).qv()[old(self).qv().len() as int] == cell_start_view(is_header, spec_cell_colspan(toks@, old(self).pos as int)),
            r is Ok && !spec_cell_content(toks@, old(self).pos as int, true) ==> final(self).qv() == old(self).qv()
                + pop_events(old(self).list_stack@, 0)
                + (if old(self).pending_preformatted_close { seq![EventView::EndPreformatted] } else { Seq::empty() })
                + seq![cell_start_view(is_header, spec_cell_colspan(toks@, old(self).pos as int)), cell_end_view(is_header)],
            match spec_cell_scan(old(self).data.style_list@, toks@, old(self).pos as int, true) {
                Ok(p) => r is Ok && final(self).pos == p,
                Err(m) => r is Err && crate::events::is_parse_error(r->Err_0, m),
            },
        decreases toks@.len() - old(self).pos, 0nat,
    {
        let mut cell_props: Option<Option<u32>> = None;
        let mut cell_started = false;
        let ghost q0 = self.qv();
        let ghost mut opened: Seq<EventView> = q0;
        loop
            invariant
                spec_cell_scan(old(self).data.style_list@, toks@, old(self).pos as int, true)
                    == spec_cell_scan(self.data.style_list@, toks@, self.pos as int, !cell_started && cell_props is None),
                old(self).frame(&*self, toks@.len() as nat),
                q0 == old(self).qv(),
                !cell_started ==> self.qv() == q0 && self.list_stack == old(self).list_stack
                    && self.pending_preformatted_close == old(self).pending_preformatted_close,
                cell_started ==> opened.len() == q0.len() + 1 && opens_cell(opened[q0.len() as int], is_header)
                    && opened.is_prefix_of(self.qv()) && q0.is_prefix_of(opened),
                !is_header ==> no_header_cells(self.qv(), q0.len() as int),
                !(cell_started || cell_props is Some) ==> spec_cell_colspan(toks@, old(self).pos as int) == spec_cell_colspan(toks@, self.pos as int),
                (cell_started || cell_props is Some) ==> spec_cell_colspan(toks@, old(self).pos as int)
                    == (match cell_props { Some(c) => c, None => None }),
                cell_started ==> opened[q0.len() as int] == cell_start_view(is_header, spec_cell_colspan(toks@, old(self).pos as int)),
                cell_started ==> table_nesting(self.qv().skip(q0.len() as int), Seq::empty()) == Some(seq![cell_end_view(is_header)]),
                cells_at_depth(self.qv().skip(q0.len() as int), Seq::empty(), 0, is_header),
                !cell_started ==> spec_cell_content(toks@, old(self).pos as int, true)
                    == spec_cell_content(toks@, self.pos as int, cell_props is None),
                cell_started ==> spec_cell_content(toks@, old(self).pos as int, true),
            decreases toks@.len() - self.pos,
        {
            let ghost pb = self.pos as int;
            let ghost ob = !cell_started && cell_props is None;
            match self.next_tok(toks) {
                Some(XmlToken::Start(t)) => {
                    let local = local_name_of(t.name.as_str());
                    let l = local.as_str();
                    if str_eq(l, "tcPr") && !cell_started && cell_props.is_none() {
                        cell_props = Some(self.parse_tcpr(toks)?);
                    } else if str_eq(l, "tcPr") {
                        self.skip_subtree(toks, t.name.as_str())?;
                    } else if str_eq(l, "p") {
                        if !cell_started {
                            let colspan = match cell_props { Some(c) => c, None => None };
                            self.emit_table_cell_start(is_header, colspan);
                            proof {
                                opened = self.qv();
                                assert(opened[q0.len() as int] == cell_start_view(is_header, colspan));
                                lemma_nesting_cell_open(q0, is_header, colspan);
                                lemma_cells_cell_open(q0, is_header, colspan);
                            }
                            cell_started = true;
                        }
                        let ghost mid = self.qv();
                        self.parse_p(toks)?;
                        proof {
                            if !is_header {
                                lemma_no_header_after_table_free(mid, self.qv(), q0.len() as int);
                            }
                            lemma_nesting_free_step(q0.len() as int, mid, self.qv(), seq![cell_end_view(is_header)]);
                            lemma_cells_free_step(q0.len() as int, mid, self.qv(), seq![cell_end_view(is_header)], 0, is_header);
                        }
                    } else if str_eq(l, "tbl") {
                        if !cell_started {
                            let colspan = match cell_props { Some(c) => c, None => None };
                            self.emit_table_cell_start(is_header, colspan);
                            proof {
                                opened = self.qv();
                                assert(opened[q0.len() as int] == cell_start_view(is_header, colspan));
                                lemma_nesting_cell_open(q0, is_header, colspan);
                                lemma_cells_cell_open(q0, is_header, colspan);
                            }
                            cell_started = true;
                        }
                        let ghost mid = self.qv();
                        self.parse_tbl(toks, false)?;
                        proof {
                            if !is_header {
                                lemma_no_header_step(mid, self.qv(), q0.len() as int);
                            }
                            lemma_nesting_nested_step(q0.len() as int, mid, self.qv(), seq![cell_end_view(is_header)]);
                            lemma_cells_deep(self.qv().skip(mid.len() as int), Seq::empty(), seq![cell_end_view(is_header)], 0, is_header);
                            assert(seq![cell_end_view(is_header)] + Seq::<EventView>::empty() =~= seq![cell_end_view(is_header)]);
                            lemma_cells_step(q0.len() as int, mid, self.qv(), seq![cell_end_view(is_header)], 0, is_header);
                        }
                    } else if is_denied_container(l) {
                        self.skip_subtree(toks, t.name.as_str())?;
                    }
                    proof {
                        if !cell_started {
                            reveal_strlit("tcPr");
                            reveal_strlit("p");
                            reveal_strlit("tbl");
                            assert("tcPr"@.len() != "p"@.len() && "tcPr"@.len() != "tbl"@.len());
                            assert(spec_cell_child(toks@, pb, *t, ob) == Ok::<(int, bool), Seq<char>>((self.pos as int, cell_props is None)));
                            lemma_cell_content_child(toks@, pb, *t, ob, self.pos as int, cell_props is None);
                        }
                    }
                },
                Some(XmlToken::Empty(t)) => {
                    let local = local_name_of(t.name.as_str());
                    let l = local.as_str();
                    proof {
                        reveal_strlit("tcPr");
                        reveal_strlit("p");
                        assert("tcPr"@.len() != "p"@.len());
                    }
                    if str_eq(l, "tcPr") && !cell_started && cell_props.is_none() {
                        cell_props = Some(None);
                    } else if str_eq(l, "p") {
                        if !cell_started {
                            let colspan = match cell_props { Some(c) => c, None => None };
                            self.emit_table_cell_start(is_header, colspan);
                            proof {
                                opened = self.qv();
                                assert(opened[q0.len() as int] == cell_start_view(is_header, colspan));
                                lemma_nesting_cell_open(q0, is_header, colspan);
                                lemma_cells_cell_open(q0, is_header, colspan);
                            }
                            cell_started = true;
                        }
                        let ghost m1 = self.qv();
                        self.emit(Event::StartParagraph { alignment: None, id: None });
                        let ghost m2 = self.qv();
                        self.emit(Event::EndParagraph);
                        proof {
                            lemma_nesting_push_free(q0.len() as int, m1, EventView::StartParagraph { alignment: None, id: None },
                                seq![cell_end_view(is_header)]);
                            lemma_nesting_push_free(q0.len() as int, m2, EventView::EndParagraph, seq![cell_end_view(is_header)]);
                            lemma_cells_push(q0.len() as int, m1, EventView::StartParagraph { alignment: None, id: None },
                                seq![cell_end_view(is_header)], 0, is_header);
                            lemma_cells_push(q0.len() as int, m2, EventView::EndParagraph, seq![cell_end_view(is_header)], 0, is_header);
                        }
                    }
                },
                Some(XmlToken::End(n)) => {
                    if local_is(n.as_str(), "tc") {
                        let ghost mid = self.qv();
                        self.flush_list_stack();
                        self.flush_pending_preformatted_close();
                        proof {
                            lemma_table_free_step(mid, self.qv(), mid.len() as int);
                            if !is_header {
                                lemma_no_header_after_table_free(mid, self.qv(), q0.len() as int);
                            }
                        }
                        if !cell_started {
                            let colspan = match cell_props { Some(c) => c, None => None };
                            let ghost m1 = self.qv();
                            self.emit_empty_table_cell(is_header, colspan);
                            proof {
                                lemma_nesting_at_end(q0);
                                lemma_nesting_free_step(q0.len() as int, q0, m1, Seq::empty());
                                lemma_nesting_push_open(q0.len() as int, m1, cell_start_view(is_header, colspan), Seq::empty());
                                assert(Seq::<EventView>::empty().push(cell_end_view(is_header)) =~= seq![cell_end_view(is_header)]);
                                lemma_nesting_push_close(q0.len() as int, m1.push(cell_start_view(is_header, colspan)),
                                    cell_end_view(is_header), Seq::empty());
                                lemma_cells_at_end(q0, 0, is_header);
                                lemma_cells_free_step(q0.len() as int, q0, m1, Seq::empty(), 0, is_header);
                                assert(opens_cell(cell_start_view(is_header, colspan), is_header));
                                lemma_cells_push(q0.len() as int, m1, cell_start_view(is_header, colspan), Seq::empty(), 0, is_header);
                                lemma_cells_push(q0.len() as int, m1.push(cell_start_view(is_header, colspan)), cell_end_view(is_header),
                                    seq![cell_end_view(is_header)], 0, is_header);
                            }
                            proof {
                                let q = self.qv();
                                if old(self).list_stack@.len() == 0 && !old(self).pending_preformatted_close {
                                    assert(pop_events(old(self).list_stack@, 0) =~= Seq::<EventView>::empty());
                                    assert(q.len() == q0.len() + 2);
                                }
                                assert(q[q.len() - 2] == cell_start_view(is_header, colspan));
                                assert(opens_cell(q[q.len() - 2], is_header));
                            }
                        } else {
                            let ghost m1 = self.qv();
                            proof {
                                lemma_nesting_free_step(q0.len() as int, mid, m1, seq![cell_end_view(is_header)]);
                                assert(seq![cell_end_view(is_header)] =~= Seq::<EventView>::empty().push(cell_end_view(is_header)));
                                lemma_cells_free_step(q0.len() as int, mid, m1, seq![cell_end_view(is_header)], 0, is_header);
                            }
                            if is_header {
                                self.emit(Event::EndTableHeader);
                            } else {
                                self.emit(Event::EndTableCell);
                            }
                            proof {
                                lemma_nesting_push_close(q0.len() as int, m1, cell_end_view(is_header), Seq::empty());
                                lemma_cells_push(q0.len() as int, m1, cell_end_view(is_header), seq![cell_end_view(is_header)], 0, is_header);
                            }
                            proof {
                                let q = self.qv();
                                assert(q[q0.len() as int] == opened[q0.len() as int]);
                                assert(opens_cell(q[q0.len() as int], is_header));
                            }
                        }
                        return Ok(());
                    }
                },
                Some(XmlToken::Malformed(m)) => {
                    return Err(reader_error(m.as_str()));
                },
                Some(XmlToken::Eof) => {
                    return Err(parse_error(String::from_str("malformed document.xml: unexpected EOF inside <w:tc>")));
                },
                None => {
                    return Err(parse_error(String::from_str("malformed document.xml: unexpected EOF inside <w:tc>")));
                },
                Some(_) => {},
            }
        }
    }

    /// Reads the rest of a `<w:tr>`. A row is a header row while the rows
    /// before it in the table were all header rows (the header band).
    #[verifier::rlimit(100)]
    fn parse_tr(&mut self, toks: &Vec<XmlToken>, header_band_active: &mut bool) -> (r: Result<(), DocxError>)
        requires
            old(self).wf(),
            old(self).pos <= toks@.len(),
        ensures
            old(self).frame(&*final(self), toks@.len() as nat),
            !*old(header_band_active) ==> !*final(header_band_active),
            r is Err ==> r->Err_0 is Parse,
            r is Ok ==> is_row_events(old(self).qv(), final(self).qv()),
            r is Ok && !*final(header_band_active) ==> no_header_cells(final(self).qv(), old(self).qv().len() as int),
            r is Ok ==> *final(header_band_active) == (*old(header_band_active) && spec_row_band(toks@, old(self).pos as int)),
            r is Ok ==> table_nested(final(self).qv().skip(old(self).qv().len() as int)),
            r is Ok ==> cells_at_depth(final(self).qv().skip(old(self).qv().len() as int), Seq::empty(), 1, *final(header_band_active)),
            r is Ok && spec_row_cells(old(self).data.style_list@, toks@, old(self).pos as int, true) ==> {
                &&& final(self).qv().len() >= old(self).qv().len() + 2
                &&& final(self).qv()[old(self).qv().len() as int] == (EventView::StartTableRow { id: None })
                &&& final(self).qv().last() == EventView::EndTableRow
            },
            r is Ok && !spec_row_cells(old(self).data.style_list@, toks@, old(self).pos as int, true)
                ==> table_free(final(self).qv(), old(self).qv().len() as int),
            match spec_row_scan(old(self).data.style_list@, toks@, old(self).pos as int, true) {
                Ok(p) => r is Ok && final(self).pos == p,
                Err(m) => r is Err && crate::events::is_parse_error(r->Err_0, m),
            },
        decreases toks@.len() - old(self).pos, 1nat,
    {
        let mut row_props: Option<bool> = None;
        let mut row_started = false;
        let ghost q0 = self.qv();
        loop
            invariant
                spec_row_scan(old(self).data.style_list@, toks@, old(self).pos as int, true)
                    == spec_row_scan(self.data.style_list@, toks@, self.pos as int, !row_started && row_props is None),
                old(self).frame(&*self, toks@.len() as nat),
                !*old(header_band_active) ==> !*header_band_active,
                q0 == old(self).qv(),
                !row_started ==> self.qv() == q0,
                row_started ==> q0.push(EventView::StartTableRow { id: None }).is_prefix_of(self.qv()),
                row_started ==> table_nesting(self.qv().skip(q0.len() as int), Seq::empty()) == Some(seq![EventView::EndTableRow]),
                row_started ==> cells_at_depth(self.qv().skip(q0.len() as int), Seq::empty(), 1, *header_band_active),
                row_started ==> (*header_band_active ==> row_props == Some(true)),
                !row_started ==> spec_row_cells(old(self).data.style_list@, toks@, old(self).pos as int, true)
                    == spec_row_cells(self.data.style_list@, toks@, self.pos as int, row_props is None),
                row_started ==> spec_row_cells(old(self).data.style_list@, toks@, old(self).pos as int, true),
                !*header_band_active ==> no_header_cells(self.qv(), q0.len() as int),
                !(row_started || row_props is Some) ==> spec_row_band(toks@, old(self).pos as int) == spec_row_band(toks@, self.pos as int)
                    && *header_band_active == *old(header_band_active),
                (row_started || row_props is Some) ==> spec_row_band(toks@, old(self).pos as int) == (row_props == Some(true))
                    && *header_band_active == (*old(header_band_active) && spec_row_band(toks@, old(self).pos as int)),
            decreases toks@.len() - self.pos,
        {
            let ghost pb = self.pos as int;
            let ghost ob = !row_started && row_props is None;
            match self.next_tok(toks) {
                Some(XmlToken::Start(t)) => {
                    let local = local_name_of(t.name.as_str());
                    let l = local.as_str();
                    if str_eq(l, "trPr") && !row_started && row_props.is_none() {
                        let h = self.parse_trpr(toks)?;
                        row_props = Some(h);
                        if !h {
                            *header_band_active = false;
                        }
                    } else if str_eq(l, "trPr") {
                        self.skip_subtree(toks, t.name.as_str())?;
                    } else if str_eq(l, "tc") {
                        let row_is_header = match row_props { Some(h) => h, None => false };
                        if !row_started {
                            if !row_is_header {
                                *header_band_active = false;
                            }
                            let ghost m1 = self.qv();
                            self.emit(Event::StartTableRow { id: None });
                            proof {
                                lemma_nesting_at_end(q0);
                                lemma_nesting_push_open(q0.len() as int, m1, EventView::StartTableRow { id: None }, Seq::empty());
                                assert(Seq::<EventView>::empty().push(EventView::EndTableRow) =~= seq![EventView::EndTableRow]);
                                lemma_cells_at_end(q0, 1, *header_band_active);
                                lemma_cells_push(q0.len() as int, m1, EventView::StartTableRow { id: None }, Seq::empty(), 1, *header_band_active);
                            }
                            row_started = true;
                        }
                        let ghost mid = self.qv();
                        self.parse_tc(toks, row_is_header && *header_band_active)?;
                        proof {
                            if !*header_band_active {
                                lemma_no_header_step(mid, self.qv(), q0.len() as int);
                            }
                            lemma_nesting_nested_step(q0.len() as int, mid, self.qv(), seq![EventView::EndTableRow]);
                            let x = self.qv().skip(mid.len() as int);
                            lemma_cells_shift(x, Seq::empty(), seq![EventView::EndTableRow], 0, *header_band_active);
                            assert(seq![EventView::EndTableRow] + Seq::<EventView>::empty() =~= seq![EventView::EndTableRow]);
                            lemma_cells_step(q0.len() as int, mid, self.qv(), seq![EventView::EndTableRow], 1, *header_band_active);
                        }
                    } else if is_denied_container(l) {
                        self.skip_subtree(toks, t.name.as_str())?;
                    }
                    proof {
                        if !row_started {
                            reveal_strlit("tc");
                            reveal_strlit("trPr");
                            assert("tc"@.len() != "trPr"@.len());
                            assert(spec_row_child(toks@, pb, *t, ob) == Ok::<(int, bool), Seq<char>>((self.pos as int, row_props is None)));
                            lemma_row_cells_child(self.data.style_list@, toks@, pb, *t, ob, self.pos as int, row_props is None);
                        }
                    }
                },
                Some(XmlToken::Empty(t)) => {
                    let local = local_name_of(t.name.as_str());
                    let l = local.as_str();
                    if str_eq(l, "trPr") && !row_started && row_props.is_none() {
                        row_props = Some(false);
                        *header_band_active = false;
                    } else if str_eq(l, "tc") {
                        let row_is_header = match row_props { Some(h) => h, None => false };
                        if !row_started {
                            if !row_is_header {
                                *header_band_active = false;
                            }
                            let ghost m1 = self.qv();
                            self.emit(Event::StartTableRow { id: None });
                            proof {
                                lemma_nesting_at_end(q0);
                                lemma_nesting_push_open(q0.len() as int, m1, EventView::StartTableRow { id: None }, Seq::empty());
                                assert(Seq::<EventView>::empty().push(EventView::EndTableRow) =~= seq![EventView::EndTableRow]);
                                lemma_cells_at_end(q0, 1, *header_band_active);
                                lemma_cells_push(q0.len() as int, m1, EventView::StartTableRow { id: None }, Seq::empty(), 1, *header_band_active);
                            }
                            row_started = true;
                        }
                        let ghost m1 = self.qv();
                        let h = row_is_header && *header_band_active;
                        self.emit_empty_table_cell(h, None);
                        proof {
                            let owed = seq![EventView::EndTableRow];
                            lemma_nesting_push_open(q0.len() as int, m1, cell_start_view(h, None), owed);
                            lemma_nesting_push_close(q0.len() as int, m1.push(cell_start_view(h, None)), cell_end_view(h), owed);
                            assert(opens_cell(cell_start_view(h, None), h));
                            lemma_cells_push(q0.len() as int, m1, cell_start_view(h, None), owed, 1, *header_band_active);
                            lemma_cells_push(q0.len() as int, m1.push(cell_start_view(h, None)), cell_end_view(h),
                                owed.push(cell_end_view(h)), 1, *header_band_active);
                        }
                    }
                    proof {
                        if !row_started {
                            reveal_strlit("tc");
                            reveal_strlit("trPr");
                            assert("tc"@.len() != "trPr"@.len());
                            assert(spec_row_cells(self.data.style_list@, toks@, pb, ob)
                                == spec_row_cells(self.data.style_list@, toks@, self.pos as int, row_props is None));
                        }
                    }
                },
                Some(XmlToken::End(n)) => {
                    if local_is(n.as_str(), "tr") {
                        let ghost mid = self.qv();
                        self.flush_pending_preformatted_close();
                        proof {
                            if !*header_band_active {
                                lemma_no_header_after_table_free(mid, self.qv(), q0.len() as int);
                            }
                        }
                        let ghost m1 = self.qv();
                        proof {
                            if row_started {
                                lemma_nesting_free_step(q0.len() as int, mid, m1, seq![EventView::EndTableRow]);
                                assert(seq![EventView::EndTableRow] =~= Seq::<EventView>::empty().push(EventView::EndTableRow));
                                lemma_cells_free_step(q0.len() as int, mid, m1, seq![EventView::EndTableRow], 1, *header_band_active);
                            } else {
                                lemma_nesting_at_end(q0);
                                lemma_nesting_free_step(q0.len() as int, q0, m1, Seq::empty());
                                lemma_cells_at_end(q0, 1, *header_band_active);
                                lemma_cells_free_step(q0.len() as int, q0, m1, Seq::empty(), 1, *header_band_active);
                            }
                        }
                        if row_started {
                            self.emit(Event::EndTableRow);
                            proof {
                                lemma_nesting_push_close(q0.len() as int, m1, EventView::EndTableRow, Seq::empty());
                                lemma_cells_push(q0.len() as int, m1, EventView::EndTableRow, seq![EventView::EndTableRow], 1, *header_band_active);
                            }
                            proof {
                                let q = self.qv();
                                assert(q[q0.len() as int] == q0.push(EventView::StartTableRow { id: None })[q0.len() as int]);
                            }
                        }
                        return Ok(());
                    }
                },
                Some(XmlToken::Malformed(m)) => {
                    return Err(reader_error(m.as_str()));
                },
                Some(XmlToken::Eof) => {
                    return Err(parse_error(String::from_str("malformed document.xml: unexpected EOF inside <w:tr>")));
                },
                None => {
                    return Err(parse_error(String::from_str("malformed document.xml: unexpected EOF inside <w:tr>")));
                },
                Some(_) => {},
            }
            proof {
                if !row_started {
                    assert(spec_row_cells(self.data.style_list@, toks@, pb, ob)
                        == spec_row_cells(self.data.style_list@, toks@, self.pos as int, row_props is None));
                }
            }
        }
    }

    /// Reads the rest of a `<w:tbl>`; only the outermost table of a nesting
    /// honours header rows.
    fn parse_tbl(&mut self, toks: &Vec<XmlToken>, is_outermost: bool) -> (r: Result<(), DocxError>)
        requires
            old(self).wf(),
            old(self).pos <= toks@.len(),
        ensures
            old(self).frame(&*final(self), toks@.len() as nat),
            r is Err ==> r->Err_0 is Parse,
            r is Ok ==> is_table_events(old(self).qv(), final(self).qv()),
            r is Ok ==> final(self).list_stack@.len() == 0 && !final(self).pending_preformatted_close,
            r is Ok && !is_outermost ==> no_header_cells(final(self).qv(), old(self).qv().len() as int),
            r is Ok ==> table_nested(final(self).qv().skip(old(self).qv().len() as int)),
            r is Ok ==> final(self).qv().subrange(old(self).qv().len() as int, table_start_index(old(self).qv(),
                old(self).list_stack@, old(self).pending_preformatted_close) + 1)
                == pop_events(old(self).list_stack@, 0)
                    + (if old(self).pending_preformatted_close { seq![EventView::EndPreformatted] } else { Seq::empty() })
                    + seq![EventView::StartTable { id: None }],
            match spec_table_scan(old(self).data.style_list@, toks@, old(self).pos as int) {
                Ok(p) => r is Ok && final(self).pos == p,
                Err(m) => r is Err && crate::events::is_parse_error(r->Err_0, m),
            },
        decreases toks@.len() - old(self).pos, 2nat,
    {
        self.flush_list_stack();
        let ghost mid0 = self.qv();
        self.flush_pending_preformatted_close();
        proof {
            lemma_table_free_step(mid0, self.qv(), old(self).qv().len() as int);
            lemma_table_free_no_header(self.qv(), old(self).qv().len() as int);
        }
        let ghost m1 = self.qv();
        self.emit(Event::StartTable { id: None });
        let ghost opened = self.qv();
        proof {
            assert(opened.subrange(old(self).qv().len() as int, opened.len() as int)
                =~= pop_events(old(self).list_stack@, 0)
                    + (if old(self).pending_preformatted_close { seq![EventView::EndPreformatted] } else { Seq::empty() })
                    + seq![EventView::StartTable { id: None }]);
            lemma_nesting_at_end(old(self).qv());
            lemma_nesting_free_step(old(self).qv().len() as int, old(self).qv(), m1, Seq::empty());
            lemma_nesting_push_open(old(self).qv().len() as int, m1, EventView::StartTable { id: None }, Seq::empty());
            assert(Seq::<EventView>::empty().push(EventView::EndTable) =~= seq![EventView::EndTable]);
        }
        let mut header_band_active = is_outermost;
        loop
            invariant
                spec_table_scan(old(self).data.style_list@, toks@, old(self).pos as int)
                    == spec_table_scan(self.data.style_list@, toks@, self.pos as int),
                old(self).frame(&*self, toks@.len() as nat),
                old(self).qv().is_prefix_of(opened),
                opened.len() > old(self).qv().len(),
                opened.last() == (EventView::StartTable { id: None }),
                opened.len() == table_start_index(old(self).qv(), old(self).list_stack@, old(self).pending_preformatted_close) + 1,
                opened.subrange(old(self).qv().len() as int, opened.len() as int)
                    == pop_events(old(self).list_stack@, 0)
                        + (if old(self).pending_preformatted_close { seq![EventView::EndPreformatted] } else { Seq::empty() })
                        + seq![EventView::StartTable { id: None }],
                opened.is_prefix_of(self.qv()),
                !is_outermost ==> !header_band_active && no_header_cells(self.qv(), old(self).qv().len() as int),
                table_nesting(self.qv().skip(old(self).qv().len() as int), Seq::empty()) == Some(seq![EventView::EndTable]),
            decreases toks@.len() - self.pos,
        {
            match self.next_tok(toks) {
                Some(XmlToken::Start(t)) => {
                    let local = local_name_of(t.name.as_str());
                    if str_eq(local.as_str(), "tr") {
                        let ghost mid = self.qv();
                        self.parse_tr(toks, &mut header_band_active)?;
                        proof {
                            if !is_outermost {
                                lemma_no_header_step(mid, self.qv(), old(self).qv().len() as int);
                            }
                            lemma_nesting_nested_step(old(self).qv().len() as int, mid, self.qv(), seq![EventView::EndTable]);
                        }
                    } else if is_denied_container(local.as_str()) {
                        self.skip_subtree(toks, t.name.as_str())?;
                    }
                },
                Some(XmlToken::Empty(t)) => {
                    if local_is(t.name.as_str(), "tr") {
                        header_band_active = false;
                        let ghost m2 = self.qv();
                        self.emit(Event::StartTableRow { id: None });
                        self.emit(Event::EndTableRow);
                        proof {
                            let owed = seq![EventView::EndTable];
                            lemma_nesting_push_open(old(self).qv().len() as int, m2, EventView::StartTableRow { id: None }, owed);
                            lemma_nesting_push_close(old(self).qv().len() as int, m2.push(EventView::StartTableRow { id: None }),
                                EventView::EndTableRow, owed);
                        }
                    }
                },
                Some(XmlToken::End(n)) => {
                    if local_is(n.as_str(), "tbl") {
                        let ghost mid = self.qv();
                        self.flush_list_stack();
                        self.flush_pending_preformatted_close();
                        proof {
                            lemma_table_free_step(mid, self.qv(), mid.len() as int);
                            if !is_outermost {
                                lemma_no_header_after_table_free(mid, self.qv(), old(self).qv().len() as int);
                            }
                        }
                        let ghost m2 = self.qv();
                        proof {
                            lemma_nesting_free_step(old(self).qv().len() as int, mid, m2, seq![EventView::EndTable]);
                            assert(seq![EventView::EndTable] =~= Seq::<EventView>::empty().push(EventView::EndTable));
                        }
                        self.emit(Event::EndTable);
                        proof {
                            lemma_nesting_push_close(old(self).qv().len() as int, m2, EventView::EndTable, Seq::empty());
                        }
                        proof {
                            let q = self.qv();
                            assert forall|k: int| 0 <= k < opened.len() implies opened[k] == #[trigger] q[k] by {
                                assert(opened[k] == q.subrange(0, opened.len() as int)[k]);
                            }
                            assert(q.subrange(old(self).qv().len() as int, opened.len() as int)
                                =~= opened.subrange(old(self).qv().len() as int, opened.len() as int));
                            let i = opened.len() - 1;
                            assert(q[i] == opened[i]);
                        }
                        return Ok(());
                    }
                },
                Some(XmlToken::Malformed(m)) => {
                    return Err(reader_error(m.as_str()));
                },
                Some(XmlToken::Eof) => {
                    return Err(parse_error(String::from_str("malformed document.xml: unexpected EOF inside <w:tbl>")));
                },
                None => {
                    return Err(parse_error(String::from_str("malformed document.xml: unexpected EOF inside <w:tbl>")));
                },
                Some(_) => {},
            }
        }
    }
}


/// Where a table read after the queue `q0` puts its `StartTable`: after the
/// closes of the open lists and of a pending code block.
pub open spec fn table_start_index(q0: Seq<EventView>, lists: Seq<ListStackEntry>, code_close_pending: bool) -> int {
    q0.len() + pop_events(lists, 0).len() + if code_close_pending { 1int } else { 0int }
}

/// Where reading what a start tag `tag` in the document body opens stops,
/// from `pos` just after the tag; or the reader's message.
pub open spec fn spec_body_start(styles: Seq<crate::styles::StyleView>, toks: Seq<XmlToken>, pos: int, tag: XmlTag) -> Result<int, Seq<char>> {
    let l = local_name(tag.name@);
    if l == "drawing"@ {
        match spec_subtree_scan(toks, pos, 1) {
            Ok((p, _)) => Ok(p),
            Err(m) => Err(m),
        }
    } else if l == "pict"@ {
        match spec_subtree_scan(toks, pos, 1) {
            Ok((p, false)) => Ok(p),
            Ok((_, true)) => Err("malformed document.xml: unexpected EOF inside <w:pict>"@),
            Err(m) => Err(m),
        }
    } else if l == "tbl"@ {
        spec_table_scan(styles, toks, pos)
    } else if spec_is_denied(l) {
        skip_then(toks, pos, tag.name@)
    } else if l == "p"@ {
        spec_para_scan(styles, toks, pos, true)
    } else {
        Ok(pos)
    }
}

/// Where one reading step of the document body from `pos` stops; or the
/// reader's message.
pub open spec fn spec_body_step(styles: Seq<crate::styles::StyleView>, toks: Seq<XmlToken>, pos: int) -> Result<int, Seq<char>> {
    if pos < 0 || pos >= toks.len() {
        Ok(pos)
    } else {
        match toks[pos] {
            XmlToken::Start(t) => spec_body_start(styles, toks, pos + 1, t),
            XmlToken::Malformed(m) => Err(doc_msg(m@)),
            _ => Ok(pos + 1),
        }
    }
}

/// Whether reading the document body from `pos` to its end meets no error.
pub open spec fn spec_body_sound(styles: Seq<crate::styles::StyleView>, toks: Seq<XmlToken>, pos: int) -> bool
    decreases toks.len() - pos,
{
    if pos < 0 || pos >= toks.len() {
        true
    } else {
        match spec_body_step(styles, toks, pos) {
            Ok(p) => if pos < p <= toks.len() { spec_body_sound(styles, toks, p) } else { true },
            Err(_) => false,
        }
    }
}

/// How far a reader is from finishing.
pub open spec fn phase_rank(p: Phase) -> nat {
    match p {
        Phase::NotStarted => 2,
        Phase::Running => 1,
        Phase::Finished => 0,
    }
}

impl Parser {
    /// A start tag in the document body.
    fn handle_start(&mut self, toks: &Vec<XmlToken>, tag: &XmlTag) -> (r: Result<(), DocxError>)
        requires
            old(self).wf(),
            old(self).pos <= toks@.len(),
        ensures
            old(self).frame(&*final(self), toks@.len() as nat),
            r is Err ==> r->Err_0 is Parse,
            ({
                let l = local_name(tag.name@);
                if l == "drawing"@ {
                    final(self).phase != Phase::Finished ==> only_images(final(self).qv(), old(self).qv().len() as int)
                } else if l == "pict"@ {
                    only_images(final(self).qv(), old(self).qv().len() as int)
                } else if l == "tbl"@ {
                    r is Ok ==> is_table_events(old(self).qv(), final(self).qv())
                } else if spec_is_denied(l) {
                    final(self).qv() == old(self).qv() && match spec_skip(toks@, old(self).pos as int, tag.name@, 0) {
                        Ok(p) => r is Ok && final(self).pos == p,
                        Err(m) => r is Err && crate::events::is_parse_error(r->Err_0, doc_msg(m)),
                    }
                } else if l == "p"@ {
                    r is Ok ==> ends_paragraph(final(self).qv(), final(self).pending_preformatted_close, final(self).phase)
                } else {
                    r is Ok && final(self).qv() == old(self).qv() && final(self).pos == old(self).pos
                }
            }),
            match spec_body_start(old(self).data.style_list@, toks@, old(self).pos as int, *tag) {
                Ok(p) => r is Ok && (final(self).pos == p || final(self).phase == Phase::Finished),
                Err(m) => r is Err && crate::events::is_parse_error(r->Err_0, m),
            },
            r is Ok ==> table_nested(final(self).qv().skip(old(self).qv().len() as int)),
    {
        let local = local_name_of(tag.name.as_str());
        let l = local.as_str();
        if str_eq(l, "drawing") {
            let r = self.parse_drawing_subtree(toks);
            proof { lemma_table_free_nested(self.qv(), old(self).qv().len() as int); }
            r
        } else if str_eq(l, "pict") {
            let r = self.parse_pict_subtree(toks);
            proof { lemma_table_free_nested(self.qv(), old(self).qv().len() as int); }
            r
        } else if str_eq(l, "tbl") {
            self.parse_tbl(toks, true)
        } else if is_denied_container(l) {
            let r = self.skip_subtree(toks, tag.name.as_str());
            proof { lemma_nesting_at_end(self.qv()); }
            r
        } else if str_eq(l, "p") {
            let r = self.parse_p(toks);
            proof {
                if r is Ok {
                    lemma_table_free_nested(self.qv(), old(self).qv().len() as int);
                }
            }
            r
        } else {
            proof { lemma_nesting_at_end(self.qv()); }
            Ok(())
        }
    }

    /// Reads one token of the body and what it starts.
    fn read_until_event(&mut self, toks: &Vec<XmlToken>) -> (r: Result<(), DocxError>)
        requires
            old(self).wf(),
            old(self).pos <= toks@.len(),
        ensures
            old(self).frame(&*final(self), toks@.len() as nat),
            final(self).pos > old(self).pos || final(self).phase == Phase::Finished,
            r is Err ==> r->Err_0 is Parse,
            (old(self).pos >= toks@.len() || toks@[old(self).pos as int] is Eof) ==> r is Ok
                && final(self).phase == Phase::Finished && final(self).qv().last() == EventView::EndDocument,
            old(self).pos < toks@.len() ==> match toks@[old(self).pos as int] {
                XmlToken::Malformed(m) => r is Err && crate::events::is_parse_error(r->Err_0, doc_msg(m@)),
                XmlToken::Empty(t) => r is Ok && final(self).pos == old(self).pos + 1 && if local_name(t.name@) == "p"@ {
                    closes_block(final(self).qv(), final(self).pending_preformatted_close)
                } else {
                    final(self).qv() == old(self).qv()
                },
                XmlToken::Start(_) | XmlToken::Eof => true,
                _ => r is Ok && final(self).pos == old(self).pos + 1 && final(self).qv() == old(self).qv(),
            },
            match spec_body_step(old(self).data.style_list@, toks@, old(self).pos as int) {
                Ok(p) => r is Ok && (final(self).pos == p || final(self).phase == Phase::Finished),
                Err(m) => r is Err && crate::events::is_parse_error(r->Err_0, m),
            },
            r is Ok ==> table_nested(final(self).qv().skip(old(self).qv().len() as int)),
    {
        match self.next_tok(toks) {
            Some(XmlToken::Start(t)) => self.handle_start(toks, t),
            Some(XmlToken::Empty(t)) => {
                if local_is(t.name.as_str(), "p") {
                    self.parse_empty_p();
                }
                proof { lemma_table_free_nested(self.qv(), old(self).qv().len() as int); }
                Ok(())
            },
            Some(XmlToken::Eof) => {
                self.handle_eof();
                proof { lemma_table_free_nested(self.qv(), old(self).qv().len() as int); }
                Ok(())
            },
            None => {
                self.handle_eof();
                proof { lemma_table_free_nested(self.qv(), old(self).qv().len() as int); }
                Ok(())
            },
            Some(XmlToken::Malformed(m)) => Err(reader_error(m.as_str())),
            Some(_) => {
                proof { lemma_nesting_at_end(self.qv()); }
                Ok(())
            },
        }
    }
}

/// Streaming parser for the main document part.
pub struct DocumentReader {
    toks: Vec<XmlToken>,
    st: Parser,
    /// An error met while queued events were still to be returned.
    pending_error: Option<DocxError>,
    /// The events handed out so far, in order.
    handed_out: Ghost<Seq<EventView>>,
    /// Whether no reading error has come up.
    no_read_error: Ghost<bool>,
}

impl DocumentReader {
    /// The reader's invariant.
    pub closed spec fn wf(&self) -> bool {
        &&& self.st.wf()
        &&& self.st.pos <= self.toks@.len()
        &&& self.no_read_error@ ==> table_nested(self.handed_out@ + self.st.qv())
        &&& self.pending_error matches Some(e) ==> e is Parse
    }

    /// The events parsed but not yet returned.
    pub closed spec fn queued(&self) -> Seq<EventView> {
        self.st.qv()
    }

    /// The processing phase.
    pub closed spec fn phase(&self) -> Phase {
        self.st.phase
    }

    /// Whether an error waits behind the queued events.
    pub closed spec fn has_pending_error(&self) -> bool {
        self.pending_error is Some
    }

    /// The tokens of the document part.
    pub closed spec fn tokens(&self) -> Seq<XmlToken> {
        self.toks@
    }

    /// The events handed out so far, in order.
    pub closed spec fn returned(&self) -> Seq<EventView> {
        self.handed_out@
    }

    /// Whether no reading error has come up.
    pub closed spec fn error_free(&self) -> bool {
        self.no_read_error@
    }

    /// How many tokens have been read.
    pub closed spec fn position(&self) -> int {
        self.st.pos as int
    }

    /// Whether the close of a code block waits to be emitted.
    pub closed spec fn code_close_pending(&self) -> bool {
        self.st.pending_preformatted_close
    }

    /// How many list levels are open.
    pub closed spec fn open_list_levels(&self) -> nat {
        self.st.list_stack@.len()
    }

    /// The styles the reader classifies with.
    pub closed spec fn styles(&self) -> Seq<crate::styles::StyleView> {
        self.st.data.style_list@
    }

    /// Moves past the next start tag and returns its name; none when no
    /// start tag is left, the whole input then being read.
    pub fn next_start_tag(&mut self) -> (r: Option<String>)
        requires
            old(self).wf(),
        ensures
            final(self).wf(),
            final(self).tokens() == old(self).tokens(),
            final(self).queued() == old(self).queued(),
            final(self).phase() == old(self).phase(),
            final(self).styles() == old(self).styles(),
            old(self).position() <= final(self).position() <= final(self).tokens().len(),
            forall|j: int| old(self).position() <= j < final(self).position() - 1 ==> !(#[trigger] final(self).tokens()[j] is Start),
            match r {
                Some(n) => final(self).position() > old(self).position()
                    && (final(self).tokens()[final(self).position() - 1] matches XmlToken::Start(t) && t.name@ == n@),
                None => final(self).position() == final(self).tokens().len()
                    && (final(self).position() > old(self).position() ==> !(final(self).tokens()[final(self).position() - 1] is Start)),
            },
    {
        let ghost p0 = self.st.pos;
        while self.st.pos < self.toks.len()
            invariant
                self.st.wf(),
                p0 <= self.st.pos <= self.toks@.len(),
                self.toks@ == old(self).toks@,
                self.st.queue == old(self).st.queue,
                self.st.phase == old(self).st.phase,
                self.st.data == old(self).st.data,
                self.handed_out == old(self).handed_out,
                self.no_read_error == old(self).no_read_error,
                self.pending_error == old(self).pending_error,
                self.no_read_error@ ==> table_nested(self.handed_out@ + self.st.qv()),
                self.pending_error matches Some(e) ==> e is Parse,
                p0 == old(self).st.pos,
                forall|j: int| p0 <= j < self.st.pos ==> !(#[trigger] self.toks@[j] is Start),
            decreases self.toks@.len() - self.st.pos,
        {
            let i = self.st.pos;
            self.st.pos = i + 1;
            match &self.toks[i] {
                XmlToken::Start(t) => {
                    return Some(t.name.clone());
                },
                _ => {},
            }
        }
        None
    }

    /// Reads the rest of a `<w:numPr>` whose start tag has just been read:
    /// the list it names, as [`spec_numpr`] describes.
    pub fn parse_numpr(&mut self) -> (r: Result<Option<(u32, u32)>, DocxError>)
        requires
            old(self).wf(),
        ensures
            final(self).wf(),
            final(self).tokens() == old(self).tokens(),
            final(self).queued() == old(self).queued(),
            final(self).phase() == old(self).phase(),
            match spec_numpr(old(self).tokens(), old(self).position(), None, None) {
                Ok((v, p)) => r matches Ok(x) && x == v && final(self).position() == p,
                Err(m) => r is Err && crate::events::is_parse_error(r->Err_0, m),
            },
    {
        self.st.parse_numpr(&self.toks)
    }

    /// Reads the rest of a `<w:pPr>` whose start tag has just been read, as
    /// [`spec_ppr`] describes.
    pub fn parse_ppr(&mut self) -> (r: Result<ParagraphProps, DocxError>)
        requires
            old(self).wf(),
        ensures
            final(self).wf(),
            final(self).tokens() == old(self).tokens(),
            final(self).queued() == old(self).queued(),
            final(self).phase() == old(self).phase(),
            match spec_ppr(old(self).styles(), old(self).tokens(), old(self).position(), empty_paragraph_props()) {
                Ok((v, p)) => r == Ok::<ParagraphProps, DocxError>(v) && final(self).position() == p,
                Err(m) => r is Err && crate::events::is_parse_error(r->Err_0, m),
            },
    {
        self.st.parse_ppr(&self.toks)
    }

    /// Reads the rest of a `<w:rPr>` whose start tag has just been read, as
    /// [`spec_rpr`] describes; shading stands in for a missing highlight.
    pub fn parse_rpr(&mut self) -> (r: Result<RunProps, DocxError>)
        requires
            old(self).wf(),
        ensures
            final(self).wf(),
            final(self).tokens() == old(self).tokens(),
            final(self).queued() == old(self).queued(),
            final(self).phase() == old(self).phase(),
            match spec_rpr(old(self).styles(), old(self).tokens(), old(self).position(), empty_run_acc()) {
                Ok((a, p)) => r matches Ok(x) && x.kinds@ == a.kinds && x.text_color == a.text_color
                    && x.mark == (if a.mark is Some { a.mark } else { a.shade }) && x.font == a.font
                    && final(self).position() == p,
                Err(m) => r is Err && crate::events::is_parse_error(r->Err_0, m),
            },
    {
        self.st.parse_rpr(&self.toks)
    }

    /// Reads the rest of a `<w:tcPr>` whose start tag has just been read:
    /// its column span, as [`spec_tcpr`] describes.
    pub fn parse_tcpr(&mut self) -> (r: Result<Option<u32>, DocxError>)
        requires
            old(self).wf(),
        ensures
            final(self).wf(),
            final(self).tokens() == old(self).tokens(),
            final(self).queued() == old(self).queued(),
            final(self).phase() == old(self).phase(),
            match spec_tcpr(old(self).tokens(), old(self).position(), None) {
                Ok((v, p)) => r matches Ok(x) && x == v && final(self).position() == p,
                Err(m) => r is Err && crate::events::is_parse_error(r->Err_0, m),
            },
    {
        self.st.parse_tcpr(&self.toks)
    }

    /// Reads the rest of a `<w:trPr>` whose start tag has just been read:
    /// whether the row is a header row, as [`spec_trpr`] describes.
    pub fn parse_trpr(&mut self) -> (r: Result<bool, DocxError>)
        requires
            old(self).wf(),
        ensures
            final(self).wf(),
            final(self).tokens() == old(self).tokens(),
            final(self).queued() == old(self).queued(),
            final(self).phase() == old(self).phase(),
            match spec_trpr(old(self).tokens(), old(self).position(), false) {
                Ok((v, p)) => r == Ok::<bool, DocxError>(v) && final(self).position() == p,
                Err(m) => r is Err && crate::events::is_parse_error(r->Err_0, m),
            },
    {
        self.st.parse_trpr(&self.toks)
    }

    /// Reads the rest of a `<w:tc>` whose start tag has just been read,
    /// queuing the cell's events; a data cell holds no header cell, not even
    /// in a table nested in it. Every table, row and cell it opens it closes,
    /// the innermost first.
    pub fn parse_tc(&mut self, is_header: bool) -> (r: Result<(), DocxError>)
        requires
            old(self).wf(),
        ensures
            final(self).wf(),
            final(self).tokens() == old(self).tokens(),
            old(self).position() <= final(self).position(),
            old(self).queued().is_prefix_of(final(self).queued()),
            r is Err ==> r->Err_0 is Parse,
            r is Ok ==> is_cell_events(old(self).queued(), final(self).queued(), is_header),
            r is Ok ==> table_nested(final(self).queued().skip(old(self).queued().len() as int)),
            r is Ok ==> cells_at_depth(final(self).queued().skip(old(self).queued().len() as int), Seq::empty(), 0, is_header),
            final(self).returned() == old(self).returned(),
            final(self).error_free() == (old(self).error_free() && r is Ok),
            r is Ok ==> final(self).open_list_levels() == 0 && !final(self).code_close_pending(),
            r is Ok && !is_header ==> no_header_cells(final(self).queued(), old(self).queued().len() as int),
            r is Ok && old(self).open_list_levels() == 0 && !old(self).code_close_pending()
                ==> final(self).queued()[old(self).queued().len() as int]
                    == cell_start_view(is_header, spec_cell_colspan(old(self).tokens(), old(self).position())),
            r is Ok && spec_cell_content(old(self).tokens(), old(self).position(), true)
                ==> final(self).queued()[old(self).queued().len() as int]
                    == cell_start_view(is_header, spec_cell_colspan(old(self).tokens(), old(self).position())),
            r is Ok && !spec_cell_content(old(self).tokens(), old(self).position(), true) && old(self).open_list_levels() == 0
                ==> final(self).queued() == old(self).queued()
                    + (if old(self).code_close_pending() { seq![EventView::EndPreformatted] } else { Seq::empty() })
                    + seq![cell_start_view(is_header, spec_cell_colspan(old(self).tokens(), old(self).position())),
                        cell_end_view(is_header)],
            match spec_cell_scan(old(self).styles(), old(self).tokens(), old(self).position(), true) {
                Ok(p) => r is Ok && final(self).position() == p,
                Err(m) => r is Err && crate::events::is_parse_error(r->Err_0, m),
            },
            r is Ok ==> exists|i: int| old(self).queued().len() <= i < final(self).queued().len() - 1
                && #[trigger] final(self).queued()[i] == cell_start_view(is_header, spec_cell_colspan(old(self).tokens(), old(self).position())),
    {
        let ghost q0 = self.st.qv();
        proof {
            if self.st.list_stack@.len() == 0 {
                assert(pop_events(self.st.list_stack@, 0) =~= Seq::<EventView>::empty());
                assert(q0 + Seq::<EventView>::empty() =~= q0);
            }
        }
        let r = self.st.parse_tc(&self.toks, is_header);
        if r.is_err() {
            self.no_read_error = Ghost(false);
        }
        proof {
            if r is Ok && self.no_read_error@ {
                lemma_nested_grow(self.handed_out@, q0, self.st.qv());
            }
            if r is Ok {
                let c = cell_start_view(is_header, spec_cell_colspan(old(self).tokens(), old(self).position()));
                let i = choose|i: int| old(self).st.qv().len() <= i < self.st.qv().len() - 1 && #[trigger] self.st.qv()[i] == c;
                assert(self.queued()[i] == c);
            }
        }
        r
    }

    /// Reads the rest of a `<w:tr>` whose start tag has just been read,
    /// queuing the row's events; a data row ends the table's header band, and
    /// once it has ended no row holds a header cell. The row's own cells are
    /// header cells exactly when the band is still active after it, and every
    /// table, row and cell it opens it closes, the innermost first.
    pub fn parse_tr(&mut self, header_band_active: &mut bool) -> (r: Result<(), DocxError>)
        requires
            old(self).wf(),
        ensures
            final(self).wf(),
            final(self).tokens() == old(self).tokens(),
            old(self).position() <= final(self).position(),
            old(self).queued().is_prefix_of(final(self).queued()),
            !*old(header_band_active) ==> !*final(header_band_active),
            r is Err ==> r->Err_0 is Parse,
            r is Ok ==> is_row_events(old(self).queued(), final(self).queued()),
            r is Ok ==> table_nested(final(self).queued().skip(old(self).queued().len() as int)),
            r is Ok ==> cells_at_depth(final(self).queued().skip(old(self).queued().len() as int), Seq::empty(), 1,
                *final(header_band_active)),
            r is Ok && spec_row_cells(old(self).styles(), old(self).tokens(), old(self).position(), true) ==> {
                &&& final(self).queued().len() >= old(self).queued().len() + 2
                &&& final(self).queued()[old(self).queued().len() as int] == (EventView::StartTableRow { id: None })
                &&& final(self).queued().last() == EventView::EndTableRow
            },
            r is Ok && !spec_row_cells(old(self).styles(), old(self).tokens(), old(self).position(), true)
                ==> table_free(final(self).queued(), old(self).queued().len() as int),
            final(self).returned() == old(self).returned(),
            final(self).error_free() == (old(self).error_free() && r is Ok),
            r is Ok && !*final(header_band_active) ==> no_header_cells(final(self).queued(), old(self).queued().len() as int),
            r is Ok ==> *final(header_band_active) == (*old(header_band_active) && spec_row_band(old(self).tokens(), old(self).position())),
            match spec_row_scan(old(self).styles(), old(self).tokens(), old(self).position(), true) {
                Ok(p) => r is Ok && final(self).position() == p,
                Err(m) => r is Err && crate::events::is_parse_error(r->Err_0, m),
            },
    {
        let ghost q0 = self.st.qv();
        let r = self.st.parse_tr(&self.toks, header_band_active);
        if r.is_err() {
            self.no_read_error = Ghost(false);
        }
        proof {
            if r is Ok && self.no_read_error@ {
                lemma_nested_grow(self.handed_out@, q0, self.st.qv());
            }
        }
        r
    }

    /// Removes and returns the queued events, in order.
    pub fn take_queued(&mut self) -> (r: Vec<Event>)
        requires
            old(self).wf(),
        ensures
            final(self).wf(),
            events_view(r@) == old(self).queued(),
            spans_clear(events_view(r@)),
            final(self).queued().len() == 0,
            final(self).tokens() == old(self).tokens(),
            final(self).position() == old(self).position(),
            final(self).phase() == old(self).phase(),
            final(self).returned() == old(self).returned() + events_view(r@),
            final(self).error_free() == old(self).error_free(),
    {
        let mut out: Vec<Event> = Vec::new();
        while self.st.queue.len() > 0
            invariant
                self.st.wf(),
                self.toks@ == old(self).toks@,
                self.st.pos == old(self).st.pos,
                self.st.phase == old(self).st.phase,
                self.st.pos <= self.toks@.len(),
                self.pending_error == old(self).pending_error,
                self.pending_error matches Some(e) ==> e is Parse,
                events_view(out@) + self.st.qv() == old(self).st.qv(),
                self.handed_out == old(self).handed_out,
                self.no_read_error == old(self).no_read_error,
            decreases self.st.queue@.len(),
        {
            let ghost q = self.st.queue@;
            let e = self.st.queue.pop_front().unwrap();
            let ghost o = out@;
            out.push(e);
            assert(events_view(self.st.queue@) =~= events_view(q).drop_first());
            assert(events_view(out@) =~= events_view(o).push(e@));
            assert(events_view(q) =~= seq![e@] + events_view(q).drop_first());
        }
        assert(events_view(out@) =~= old(self).st.qv());
        assert(old(self).handed_out@ + events_view(out@) + self.st.qv() =~= old(self).handed_out@ + old(self).st.qv());
        self.handed_out = Ghost(self.handed_out@ + events_view(out@));
        out
    }

    /// A reader over the tokens of the document part; nothing is read yet.
    pub fn from_tokens(toks: Vec<XmlToken>, data: DocxData) -> (r: DocumentReader)
        ensures
            r.wf(),
            r.queued().len() == 0,
            r.phase() == Phase::NotStarted,
            !r.has_pending_error(),
            r.tokens() == toks@,
            r.position() == 0,
            r.styles() == data.style_list@,
            r.returned() == Seq::<EventView>::empty(),
            r.error_free(),
    {
        let st = Parser {
            pos: 0,
            pending_preformatted_close: false,
            open_styles: Vec::new(),
            phase: Phase::NotStarted,
            queue: VecDeque::new(),
            data,
            list_stack: Vec::new(),
            list_counters: Vec::new(),
        };
        assert(events_view(st.queue@) =~= Seq::<EventView>::empty());
        assert(Seq::<EventView>::empty() + st.qv() =~= Seq::<EventView>::empty());
        DocumentReader { toks, st, pending_error: None, handed_out: Ghost(Seq::empty()), no_read_error: Ghost(true) }
    }

    /// A reader over the bytes of the document part. End tags are not
    /// checked against start tags.
    pub fn from_xml(bytes: Vec<u8>, data: DocxData) -> (r: DocumentReader)
        ensures
            r.wf(),
            r.queued().len() == 0,
            r.phase() == Phase::NotStarted,
            !r.has_pending_error(),
            r.tokens() == crate::xml::xml_tokens(bytes@, false),
            r.position() == 0,
            r.styles() == data.style_list@,
            r.returned() == Seq::<EventView>::empty(),
            r.error_free(),
    {
        let toks = crate::xml::tokenize_xml(bytes, false);
        DocumentReader::from_tokens(toks, data)
    }

    /// Returns the next event: queued events first, in order; then an error
    /// that came after them; `StartDocument` before anything else; none once
    /// `EndDocument` has been returned. No cell it returns spans rows. Until
    /// a reading error comes up, the events handed out and those queued close
    /// every table, row and cell they open, the innermost first; so a stream
    /// read to its end without an error is nested throughout.
    pub fn next_event(&mut self) -> (r: Result<Option<Event>, DocxError>)
        requires
            old(self).wf(),
        ensures
            final(self).wf(),
            old(self).queued().len() > 0 ==> (r matches Ok(Some(e)) && e@ == old(self).queued()[0]
                && final(self).queued() == old(self).queued().drop_first()
                && final(self).phase() == old(self).phase()
                && final(self).has_pending_error() == old(self).has_pending_error()),
            old(self).queued().len() == 0 && old(self).has_pending_error() ==> r is Err && !final(self).has_pending_error(),
            old(self).queued().len() == 0 && !old(self).has_pending_error() && old(self).phase() == Phase::NotStarted
                ==> (r matches Ok(Some(e)) && e@ == (EventView::StartDocument { id: None, language: None, metadata: None })
                    && final(self).phase() == Phase::Running && final(self).queued().len() == 0),
            old(self).queued().len() == 0 && !old(self).has_pending_error() && old(self).phase() == Phase::Finished
                ==> (r matches Ok(None) && final(self).queued().len() == 0 && final(self).phase() == Phase::Finished
                    && !final(self).has_pending_error()),
            old(self).phase() != Phase::NotStarted ==> final(self).phase() != Phase::NotStarted,
            r matches Ok(Some(e)) ==> cell_span_clear(e@),
            r is Err ==> r->Err_0 is Parse,
            r matches Ok(None) ==> final(self).phase() == Phase::Finished && final(self).queued().len() == 0
                && !final(self).has_pending_error(),
            old(self).phase() == Phase::Finished ==> final(self).phase() == Phase::Finished,
            final(self).tokens() == old(self).tokens(),
            final(self).styles() == old(self).styles(),
            old(self).phase() == Phase::Running && old(self).queued().len() == 0 && !old(self).has_pending_error()
                && spec_body_sound(old(self).styles(), old(self).tokens(), old(self).position()) ==> r is Ok
                && !final(self).has_pending_error()
                && (final(self).phase() == Phase::Finished
                    || spec_body_sound(final(self).styles(), final(self).tokens(), final(self).position()))
                && (old(self).error_free() ==> final(self).error_free()),
            final(self).returned() == old(self).returned() + match r {
                Ok(Some(e)) => seq![e@],
                _ => Seq::<EventView>::empty(),
            },
            final(self).error_free() ==> old(self).error_free()
                && table_nested(final(self).returned() + final(self).queued()),
            r matches Ok(None) && final(self).error_free() ==> table_nested(final(self).returned()),
            (old(self).returned() + old(self).queued()).is_prefix_of(final(self).returned() + final(self).queued()),
            r is Err ==> old(self).queued().len() == 0 && final(self).queued().len() == 0,
    {
        loop
            invariant
                self.toks@ == old(self).toks@,
                (old(self).handed_out@ + old(self).st.qv()).is_prefix_of(self.handed_out@ + self.st.qv()),
                self.st.data == old(self).st.data,
                self.handed_out@ == old(self).handed_out@,
                self.no_read_error@ ==> old(self).no_read_error@,
                old(self).phase() == Phase::Running && old(self).queued().len() == 0 && !old(self).has_pending_error()
                    && spec_body_sound(old(self).styles(), old(self).tokens(), old(self).position())
                    ==> !self.has_pending_error() && (self.phase() == Phase::Finished || (self.phase() == Phase::Running
                        && spec_body_sound(self.styles(), self.tokens(), self.position())))
                        && (old(self).no_read_error@ ==> self.no_read_error@),
                old(self).phase() == Phase::Finished ==> self.phase() == Phase::Finished,
                self.wf(),
                old(self).phase() != Phase::NotStarted ==> self.phase() != Phase::NotStarted,
                old(self).pending_error is Some ==> self.pending_error is Some,
                old(self).queued().len() > 0 ==> self.queued() == old(self).queued() && self.phase() == old(self).phase()
                    && self.pending_error == old(self).pending_error,
                old(self).queued().len() == 0 && !old(self).has_pending_error() && old(self).phase() == Phase::NotStarted
                    ==> !self.has_pending_error() && ((self.phase() == Phase::NotStarted && self.queued().len() == 0)
                        || (self.phase() == Phase::Running && self.queued() == seq![EventView::StartDocument { id: None, language: None, metadata: None }])),
                old(self).queued().len() == 0 && !old(self).has_pending_error() && old(self).phase() == Phase::Finished
                    ==> self.phase() == Phase::Finished && self.queued().len() == 0 && !self.has_pending_error(),
                old(self).queued().len() == 0 && old(self).has_pending_error() ==> self.queued().len() == 0,
            decreases phase_rank(self.st.phase), self.toks@.len() - self.st.pos,
        {
            if self.st.queue.len() > 0 {
                let ghost q = self.st.queue@;
                let e = self.st.queue.pop_front().unwrap();
                assert(events_view(self.st.queue@) =~= events_view(q).drop_first());
                assert(events_view(q)[0] == e@);
                assert(self.handed_out@.push(e@) + self.st.qv() =~= self.handed_out@ + events_view(q));
                self.handed_out = Ghost(self.handed_out@.push(e@));
                return Ok(Some(e));
            }
            if self.pending_error.is_some() {
                let err = self.pending_error.take().unwrap();
                return Err(err);
            }
            match self.st.phase {
                Phase::NotStarted => {
                    self.st.phase = Phase::Running;
                    let ghost q0 = self.st.qv();
                    self.st.emit(Event::StartDocument { id: None, language: None, metadata: None });
                    proof {
                        lemma_table_free_nested(self.st.qv(), q0.len() as int);
                        if self.no_read_error@ {
                            lemma_nested_grow(self.handed_out@, q0, self.st.qv());
                        }
                    }
                },
                Phase::Finished => {
                    return Ok(None);
                },
                Phase::Running => {
                    let ghost p0 = self.st.pos as int;
                    proof {
                        if spec_body_sound(self.st.data.style_list@, self.toks@, p0) && p0 < self.toks@.len() {
                            assert(spec_body_step(self.st.data.style_list@, self.toks@, p0) is Ok);
                        }
                    }
                    let ghost q0 = self.st.qv();
                    match self.st.read_until_event(&self.toks) {
                        Err(e) => {
                            self.no_read_error = Ghost(false);
                            if self.st.queue.len() == 0 {
                                return Err(e);
                            }
                            self.pending_error = Some(e);
                        },
                        Ok(()) => {
                            proof {
                                if self.no_read_error@ {
                                    lemma_nested_grow(self.handed_out@, q0, self.st.qv());
                                }
                            }
                        },
                    }
                },
            }
        }
    }
}

} // verus!

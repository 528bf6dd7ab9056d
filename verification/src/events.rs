//! The document event model that the reader emits.

use vstd::prelude::*;

verus! {

/// An sRGB color.
#[derive(Debug, Clone, Copy, PartialEq, Eq, Structural)]
pub enum Color {
    Rgb { r: u8, g: u8, b: u8 },
}

/// Horizontal paragraph alignment.
#[derive(Debug, Clone, Copy, PartialEq, Eq, Structural)]
pub enum TextAlignment {
    Left,
    Right,
    Center,
    Justify,
}

/// Visual style of a list marker.
#[derive(Debug, Clone, Copy, PartialEq, Eq, Structural)]
pub enum ListStyleType {
    Decimal,
    LowerAlpha,
    UpperAlpha,
    LowerRoman,
    UpperRoman,
    Disc,
    Circle,
    Square,
}

/// Inline text styling opened by `StartTextStyle`.
#[derive(Debug, Clone, Copy, PartialEq, Eq, Structural)]
pub enum TextStyleKind {
    Bold,
    Italic,
    Underline,
    Strikethrough,
    Subscript,
    Superscript,
    Code,
    TextColor(Color),
    Mark(Color),
}

/// Scope of a table header cell.
#[derive(Debug, Clone, Copy, PartialEq, Eq)]
pub enum TableHeaderScope {
    Column,
}

/// Where the bytes of an image come from.
#[derive(Debug, Clone, PartialEq, Eq)]
pub enum ImageSource {
    /// An external link, stored verbatim.
    Uri { uri: String },
    /// An asset inside the package, named by its asset id
    /// (`zip://<part path>` for resolved relationships, the bare relationship
    /// id otherwise).
    Asset { asset_id: String },
}

/// One event of the document stream.
#[derive(Debug, Clone, PartialEq, Eq)]
pub enum Event {
    StartDocument { id: Option<String>, language: Option<String>, metadata: Option<String> },
    EndDocument,
    StartParagraph { alignment: Option<TextAlignment>, id: Option<String> },
    EndParagraph,
    StartHeading { level: u8, id: Option<String> },
    EndHeading,
    StartBlockQuote { id: Option<String> },
    EndBlockQuote,
    StartPreformatted { id: Option<String>, syntax: Option<String> },
    EndPreformatted,
    StartTextStyle { kind: TextStyleKind, id: Option<String> },
    EndTextStyle,
    Text { content: String },
    LineBreak,
    StartTable { id: Option<String> },
    EndTable,
    StartTableRow { id: Option<String> },
    EndTableRow,
    StartTableCell { colspan: Option<u32>, rowspan: Option<u32>, id: Option<String> },
    EndTableCell,
    StartTableHeader {
        scope: Option<TableHeaderScope>,
        abbr: Option<String>,
        colspan: Option<u32>,
        rowspan: Option<u32>,
        id: Option<String>,
    },
    EndTableHeader,
    StartLink { href: String, id: Option<String>, title: Option<String> },
    EndLink,
    StartOrderedListItem { id: Option<String>, level: u32, start: Option<u64>, style_type: ListStyleType },
    EndOrderedListItem,
    StartUnorderedListItem { id: Option<String>, level: u32, style_type: ListStyleType },
    EndUnorderedListItem,
    Image {
        alt: Option<String>,
        decorative: bool,
        id: Option<String>,
        source: ImageSource,
        title: Option<String>,
    },
}

/// Errors reported while reading a package.
#[derive(Debug, Clone, PartialEq, Eq)]
pub enum DocxError {
    /// The input could not be read.
    Io { message: String },
    /// The package or one of its parts is malformed.
    Parse { message: String, position: Option<u64> },
}

/// The view of an optional string: its characters, if present.
pub open spec fn opt_chars(o: Option<&str>) -> Option<Seq<char>> {
    match o {
        Some(s) => Some(s@),
        None => None,
    }
}

/// The view of an optional owned string.
pub open spec fn opt_string_chars(o: Option<String>) -> Option<Seq<char>> {
    match o {
        Some(s) => Some(s@),
        None => None,
    }
}

} // verus!

verus! {

/// A parse error with the given message and no position.
pub fn parse_error(message: String) -> (e: DocxError)
    ensures
        e matches DocxError::Parse { message: m, position } && m@ == message@ && position is None,
{
    DocxError::Parse { message, position: None }
}

/// Whether `e` is a parse error carrying exactly `message` and no position.
pub open spec fn is_parse_error(e: DocxError, message: Seq<char>) -> bool {
    e matches DocxError::Parse { message: m, position } && m@ == message && position is None
}

} // verus!

verus! {

/// The plain content of an [`ImageSource`].
pub enum ImageSourceView {
    Uri { uri: Seq<char> },
    Asset { asset_id: Seq<char> },
}

impl View for ImageSource {
    type V = ImageSourceView;

    open spec fn view(&self) -> ImageSourceView {
        match self {
            ImageSource::Uri { uri } => ImageSourceView::Uri { uri: uri@ },
            ImageSource::Asset { asset_id } => ImageSourceView::Asset { asset_id: asset_id@ },
        }
    }
}

/// The plain content of an [`Event`]: its strings as character sequences.
pub enum EventView {
    StartDocument { id: Option<Seq<char>>, language: Option<Seq<char>>, metadata: Option<Seq<char>> },
    EndDocument,
    StartParagraph { alignment: Option<TextAlignment>, id: Option<Seq<char>> },
    EndParagraph,
    StartHeading { level: u8, id: Option<Seq<char>> },
    EndHeading,
    StartBlockQuote { id: Option<Seq<char>> },
    EndBlockQuote,
    StartPreformatted { id: Option<Seq<char>>, syntax: Option<Seq<char>> },
    EndPreformatted,
    StartTextStyle { kind: TextStyleKind, id: Option<Seq<char>> },
    EndTextStyle,
    Text { content: Seq<char> },
    LineBreak,
    StartTable { id: Option<Seq<char>> },
    EndTable,
    StartTableRow { id: Option<Seq<char>> },
    EndTableRow,
    StartTableCell { colspan: Option<u32>, rowspan: Option<u32>, id: Option<Seq<char>> },
    EndTableCell,
    StartTableHeader {
        scope: Option<TableHeaderScope>,
        abbr: Option<Seq<char>>,
        colspan: Option<u32>,
        rowspan: Option<u32>,
        id: Option<Seq<char>>,
    },
    EndTableHeader,
    StartLink { href: Seq<char>, id: Option<Seq<char>>, title: Option<Seq<char>> },
    EndLink,
    StartOrderedListItem { id: Option<Seq<char>>, level: u32, start: Option<u64>, style_type: ListStyleType },
    EndOrderedListItem,
    StartUnorderedListItem { id: Option<Seq<char>>, level: u32, style_type: ListStyleType },
    EndUnorderedListItem,
    Image {
        alt: Option<Seq<char>>,
        decorative: bool,
        id: Option<Seq<char>>,
        source: ImageSourceView,
        title: Option<Seq<char>>,
    },
}

impl View for Event {
    type V = EventView;

    open spec fn view(&self) -> EventView {
        match self {
            Event::StartDocument { id, language, metadata } => EventView::StartDocument {
                id: opt_string_chars(*id),
                language: opt_string_chars(*language),
                metadata: opt_string_chars(*metadata),
            },
            Event::EndDocument => EventView::EndDocument,
            Event::StartParagraph { alignment, id } => EventView::StartParagraph { alignment: *alignment, id: opt_string_chars(*id) },
            Event::EndParagraph => EventView::EndParagraph,
            Event::StartHeading { level, id } => EventView::StartHeading { level: *level, id: opt_string_chars(*id) },
            Event::EndHeading => EventView::EndHeading,
            Event::StartBlockQuote { id } => EventView::StartBlockQuote { id: opt_string_chars(*id) },
            Event::EndBlockQuote => EventView::EndBlockQuote,
            Event::StartPreformatted { id, syntax } => EventView::StartPreformatted { id: opt_string_chars(*id), syntax: opt_string_chars(*syntax) },
            Event::EndPreformatted => EventView::EndPreformatted,
            Event::StartTextStyle { kind, id } => EventView::StartTextStyle { kind: *kind, id: opt_string_chars(*id) },
            Event::EndTextStyle => EventView::EndTextStyle,
            Event::Text { content } => EventView::Text { content: content@ },
            Event::LineBreak => EventView::LineBreak,
            Event::StartTable { id } => EventView::StartTable { id: opt_string_chars(*id) },
            Event::EndTable => EventView::EndTable,
            Event::StartTableRow { id } => EventView::StartTableRow { id: opt_string_chars(*id) },
            Event::EndTableRow => EventView::EndTableRow,
            Event::StartTableCell { colspan, rowspan, id } => EventView::StartTableCell { colspan: *colspan, rowspan: *rowspan, id: opt_string_chars(*id) },
            Event::EndTableCell => EventView::EndTableCell,
            Event::StartTableHeader { scope, abbr, colspan, rowspan, id } => EventView::StartTableHeader {
                scope: *scope,
                abbr: opt_string_chars(*abbr),
                colspan: *colspan,
                rowspan: *rowspan,
                id: opt_string_chars(*id),
            },
            Event::EndTableHeader => EventView::EndTableHeader,
            Event::StartLink { href, id, title } => EventView::StartLink { href: href@, id: opt_string_chars(*id), title: opt_string_chars(*title) },
            Event::EndLink => EventView::EndLink,
            Event::StartOrderedListItem { id, level, start, style_type } => EventView::StartOrderedListItem {
                id: opt_string_chars(*id),
                level: *level,
                start: *start,
                style_type: *style_type,
            },
            Event::EndOrderedListItem => EventView::EndOrderedListItem,
            Event::StartUnorderedListItem { id, level, style_type } => EventView::StartUnorderedListItem {
                id: opt_string_chars(*id),
                level: *level,
                style_type: *style_type,
            },
            Event::EndUnorderedListItem => EventView::EndUnorderedListItem,
            Event::Image { alt, decorative, id, source, title } => EventView::Image {
                alt: opt_string_chars(*alt),
                decorative: *decorative,
                id: opt_string_chars(*id),
                source: source@,
                title: opt_string_chars(*title),
            },
        }
    }
}

/// The views of a sequence of events.
pub open spec fn events_view(s: Seq<Event>) -> Seq<EventView> {
    s.map_values(|e: Event| e@)
}

/// The decimal digits of `n`, as `u32::to_string` writes them.
pub open spec fn spec_decimal(n: nat) -> Seq<char>
    decreases n,
{
    if n < 10 {
        seq![(('0' as nat) + n) as char]
    } else {
        spec_decimal(n / 10).push((('0' as nat) + n % 10) as char)
    }
}

/// Writes `n` in decimal.
pub fn u64_to_decimal(n: u64) -> (s: String)
    ensures
        s@ == spec_decimal(n as nat),
{
    let mut digits: Vec<char> = Vec::new();
    let mut m: u64 = n;
    // `digits` holds the low-order digits of `n`, least significant first.
    loop
        invariant
            spec_decimal(n as nat) == spec_decimal(m as nat) + digits@.reverse(),
        decreases m,
    {
        if m < 10 {
            let c = char_of_digit(m as u32);
            assert(spec_decimal(m as nat) == seq![c]);
            let mut out: Vec<char> = Vec::new();
            out.push(c);
            let mut i: usize = digits.len();
            while i > 0
                invariant
                    i <= digits@.len(),
                    out@ == seq![c] + digits@.subrange(i as int, digits@.len() as int).reverse(),
                decreases i,
            {
                i = i - 1;
                out.push(digits[i]);
                assert(digits@.subrange(i as int, digits@.len() as int).reverse() =~= digits@.subrange(i + 1, digits@.len() as int).reverse().push(digits@[i as int]));
                assert(out@ =~= seq![c] + digits@.subrange(i as int, digits@.len() as int).reverse());
            }
            assert(digits@.subrange(0, digits@.len() as int) =~= digits@);
            return crate::text::string_from_chars(out.as_slice());
        }
        let d = char_of_digit((m % 10) as u32);
        let ghost before = digits@;
        digits.push(d);
        assert(digits@.reverse() =~= seq![d] + before.reverse());
        assert(spec_decimal(m as nat) == spec_decimal((m / 10) as nat).push(d));
        m = m / 10;
    }
}

/// Writes `n` in decimal.
pub fn u32_to_decimal(n: u32) -> (s: String)
    ensures
        s@ == spec_decimal(n as nat),
{
    u64_to_decimal(n as u64)
}

/// The hexadecimal digit of `d` (lower case).
pub open spec fn hex_char(d: nat) -> char {
    if d < 10 { (('0' as nat) + d) as char } else { (('a' as nat) + d - 10) as char }
}

/// The low `k` hexadecimal digits of `n`, most significant first, zero-padded.
pub open spec fn spec_hex_digits(n: nat, k: nat) -> Seq<char>
    decreases k,
{
    if k == 0 {
        Seq::empty()
    } else {
        spec_hex_digits(n / 16, (k - 1) as nat).push(hex_char(n % 16))
    }
}

fn hex_digit_char(d: u32) -> (c: char)
    requires
        d < 16,
    ensures
        c == hex_char(d as nat),
{
    if d < 10 {
        char_of_digit(d)
    } else if d == 10 { 'a' } else if d == 11 { 'b' } else if d == 12 { 'c' } else if d == 13 { 'd' }
    else if d == 14 { 'e' } else { 'f' }
}

/// Writes `n` as eight lower-case hexadecimal digits, as `{:08x}` does.
pub fn u32_to_hex8(n: u32) -> (s: String)
    ensures
        s@ == spec_hex_digits(n as nat, 8),
{
    let mut out: Vec<char> = Vec::new();
    let mut k: u32 = 8;
    while k > 0
        invariant
            k <= 8,
            spec_hex_digits(n as nat, 8) == spec_hex_digits(shift_down(n as nat, (8 - k) as nat), k as nat) + out@,
        decreases k,
    {
        let m: u32 = shift_down_exec(n, 8 - k);
        let c = hex_digit_char(m % 16);
        proof {
            lemma_shift_down_step(n as nat, (8 - k) as nat);
            assert(spec_hex_digits(shift_down(n as nat, (8 - k) as nat), k as nat)
                == spec_hex_digits(shift_down(n as nat, (8 - k + 1) as nat), (k - 1) as nat).push(c));
        }
        let ghost before = out@;
        out.insert(0, c);
        assert(out@ =~= seq![c] + before);
        k = k - 1;
    }
    crate::text::string_from_chars(out.as_slice())
}

/// `n` divided by 16, `j` times.
pub open spec fn shift_down(n: nat, j: nat) -> nat
    decreases j,
{
    if j == 0 { n } else { shift_down(n / 16, (j - 1) as nat) }
}

proof fn lemma_shift_down_step(n: nat, j: nat)
    ensures
        shift_down(n, j + 1) == shift_down(n, j) / 16,
    decreases j,
{
    assert(shift_down(n, j + 1) == shift_down(n / 16, j));
    if j > 0 {
        lemma_shift_down_step(n / 16, (j - 1) as nat);
        assert(shift_down(n, j) == shift_down(n / 16, (j - 1) as nat));
    }
}

fn shift_down_exec(n: u32, j: u32) -> (r: u32)
    ensures
        r == shift_down(n as nat, j as nat),
{
    let mut r: u32 = n;
    let mut i: u32 = 0;
    while i < j
        invariant
            i <= j,
            r == shift_down(n as nat, i as nat),
        decreases j - i,
    {
        proof { lemma_shift_down_step(n as nat, i as nat); }
        r = r / 16;
        i = i + 1;
    }
    r
}

fn char_of_digit(d: u32) -> (c: char)
    requires
        d < 10,
    ensures
        c == (('0' as nat) + d) as char,
{
    if d == 0 { '0' } else if d == 1 { '1' } else if d == 2 { '2' } else if d == 3 { '3' } else if d == 4 { '4' }
    else if d == 5 { '5' } else if d == 6 { '6' } else if d == 7 { '7' } else if d == 8 { '8' } else { '9' }
}

} // verus!

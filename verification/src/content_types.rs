//! Content types from `[Content_Types].xml` (ECMA-376 Part 2 §10.1.2).

use vstd::prelude::*;

use crate::assoc::{assoc_get, assoc_map, lemma_assoc_absent, lemma_assoc_first, lemma_assoc_push, lemma_assoc_set};
use crate::events::{is_parse_error, parse_error, DocxError};
use crate::text::{ascii_lowercase, chars_of, concat_str, rfind_char, rfind_char_exec, spec_ascii_lowercase, str_eq, string_from, lemma_rfind_char};
use crate::xml::{xml_tokens, checked_attr, local_is, local_name, spec_checked_attr, tokenize_xml, well_terminated, AttrFault, XmlTag, XmlToken};

verus! {

/// The view of a string table.
pub open spec fn pairs_view(v: Seq<(String, String)>) -> Seq<(Seq<char>, Seq<char>)> {
    v.map_values(|e: (String, String)| (e.0@, e.1@))
}

/// Index of the first entry whose key is `k`.
fn str_assoc_find(v: &Vec<(String, String)>, k: &str) -> (r: Option<usize>)
    ensures
        match r {
            Some(i) => i < v@.len() && pairs_view(v@)[i as int].0 == k@
                && forall|j: int| 0 <= j < i ==> pairs_view(v@)[j].0 != k@,
            None => forall|j: int| 0 <= j < v@.len() ==> pairs_view(v@)[j].0 != k@,
        },
{
    let mut i: usize = 0;
    while i < v.len()
        invariant
            i <= v@.len(),
            forall|j: int| 0 <= j < i ==> pairs_view(v@)[j].0 != k@,
        decreases v@.len() - i,
    {
        assert(pairs_view(v@)[i as int].0 == v@[i as int].0@);
        if str_eq(v[i].0.as_str(), k) {
            return Some(i);
        }
        i = i + 1;
    }
    None
}

/// Sets `k` to `val`, replacing an earlier entry for `k`.
fn str_assoc_put(v: &mut Vec<(String, String)>, k: String, val: String)
    ensures
        assoc_map(pairs_view(final(v)@)) == assoc_map(pairs_view(old(v)@)).insert(k@, val@),
{
    let ghost before = pairs_view(v@);
    let ghost kv = k@;
    let ghost vv = val@;
    match str_assoc_find(v, k.as_str()) {
        Some(i) => {
            proof { lemma_assoc_set(before, i as int, kv, vv); }
            v.set(i, (k, val));
            assert(pairs_view(v@) =~= before.update(i as int, (kv, vv)));
        },
        None => {
            proof { lemma_assoc_push(before, kv, vv); }
            v.push((k, val));
            assert(pairs_view(v@) =~= before.push((kv, vv)));
        },
    }
    assert(assoc_map(pairs_view(v@)) =~= assoc_map(before).insert(kv, vv));
}

/// Content type lookup for the parts of a package: `Override` entries by
/// part path take precedence over `Default` entries by extension.
#[derive(Debug, Clone, Default)]
pub struct ContentTypes {
    /// Lowercase file extension → MIME type (from `<Default>` elements).
    defaults: Vec<(String, String)>,
    /// Part path without its leading `/` → MIME type (from `<Override>` elements).
    overrides: Vec<(String, String)>,
}

/// The plain content of [`ContentTypes`].
pub struct ContentTypesView {
    pub defaults: Map<Seq<char>, Seq<char>>,
    pub overrides: Map<Seq<char>, Seq<char>>,
}

impl View for ContentTypes {
    type V = ContentTypesView;

    closed spec fn view(&self) -> ContentTypesView {
        ContentTypesView { defaults: assoc_map(pairs_view(self.defaults@)), overrides: assoc_map(pairs_view(self.overrides@)) }
    }
}

/// The last `/`-separated segment of a path.
pub open spec fn last_segment(p: Seq<char>) -> Seq<char> {
    match rfind_char(p, '/') {
        Some(i) => p.subrange(i + 1, p.len() as int),
        None => p,
    }
}

/// The extension of a part path: what follows the last `.` of its last
/// segment, when that is not empty.
pub open spec fn part_extension(p: Seq<char>) -> Option<Seq<char>> {
    let f = last_segment(p);
    match rfind_char(f, '.') {
        None => None,
        Some(i) => if i + 1 < f.len() { Some(f.subrange(i + 1, f.len() as int)) } else { None },
    }
}

/// What [`ContentTypes::lookup`] returns.
pub open spec fn spec_lookup(ct: ContentTypesView, p: Seq<char>) -> Option<Seq<char>> {
    if ct.overrides.contains_key(p) {
        Some(ct.overrides[p])
    } else {
        match part_extension(p) {
            None => None,
            Some(e) => {
                let l = spec_ascii_lowercase(e);
                if ct.defaults.contains_key(l) { Some(ct.defaults[l]) } else { None }
            },
        }
    }
}

fn str_assoc_get<'a>(v: &'a Vec<(String, String)>, k: &str) -> (r: Option<&'a String>)
    ensures
        match assoc_get(pairs_view(v@), k@) {
            Some(x) => r is Some && r->0@ == x,
            None => r is None,
        },
{
    match str_assoc_find(v, k) {
        Some(i) => {
            proof { lemma_assoc_first(pairs_view(v@), i as int, k@); }
            Some(&v[i].1)
        },
        None => {
            proof { lemma_assoc_absent(pairs_view(v@), k@); }
            None
        },
    }
}

impl ContentTypes {
    /// An empty table.
    pub fn new() -> (ct: ContentTypes)
        ensures
            ct@.defaults == Map::<Seq<char>, Seq<char>>::empty(),
            ct@.overrides == Map::<Seq<char>, Seq<char>>::empty(),
    {
        let ct = ContentTypes { defaults: Vec::new(), overrides: Vec::new() };
        assert(ct@.defaults =~= Map::<Seq<char>, Seq<char>>::empty());
        assert(ct@.overrides =~= Map::<Seq<char>, Seq<char>>::empty());
        ct
    }

    /// Resolves a part path to its MIME content type: an `Override` for the
    /// exact path, else the `Default` for the lower-cased extension of the
    /// path's last segment (what follows its last `.`, when not empty).
    pub fn lookup(&self, part_path: &str) -> (r: Option<&str>)
        ensures
            match spec_lookup(self@, part_path@) {
                Some(x) => r is Some && r->0@ == x,
                None => r is None,
            },
    {
        if let Some(ct) = str_assoc_get(&self.overrides, part_path) {
            return Some(ct.as_str());
        }
        let p = chars_of(part_path);
        proof { lemma_rfind_char(p@, '/'); }
        let start: usize = match rfind_char_exec(p.as_slice(), '/') {
            Some(i) => i + 1,
            None => 0,
        };
        let file = string_from(p.as_slice(), start);
        assert(file@ == last_segment(part_path@)) by {
            if start == 0 {
                assert(p@.subrange(0, p@.len() as int) =~= p@);
            }
        }
        let f = chars_of(file.as_str());
        let dot = match rfind_char_exec(f.as_slice(), '.') {
            Some(i) => i,
            None => {
                return None;
            },
        };
        if dot + 1 >= f.len() {
            return None;
        }
        let ext = string_from(f.as_slice(), dot + 1);
        let lower = ascii_lowercase(ext.as_str());
        match str_assoc_get(&self.defaults, lower.as_str()) {
            Some(ct) => Some(ct.as_str()),
            None => None,
        }
    }
}

/// Where a scan of `[Content_Types].xml` stands.
#[derive(Debug, Clone, Copy, PartialEq, Eq, Structural)]
pub enum CtPhase {
    Scanning,
    Done,
    Failed,
}

/// The state of a scan of `[Content_Types].xml`.
pub struct CtScanView {
    pub phase: CtPhase,
    pub depth: usize,
    pub table: ContentTypesView,
    pub error: Seq<char>,
}

/// The message of a malformed `[Content_Types].xml`.
pub open spec fn ct_msg(m: Seq<char>) -> Seq<char> {
    "malformed [Content_Types].xml: "@ + m
}

/// The scan stopped with the error `msg`.
pub open spec fn ct_fail(s: CtScanView, msg: Seq<char>) -> CtScanView {
    CtScanView { phase: CtPhase::Failed, error: msg, ..s }
}

/// A part name without one leading `/`.
pub open spec fn strip_one_slash(p: Seq<char>) -> Seq<char> {
    if p.len() > 0 && p[0] == '/' { p.drop_first() } else { p }
}

/// A `Default` or `Override` element.
pub open spec fn ct_element(s: CtScanView, tag: XmlTag) -> CtScanView {
    let n = local_name(tag.name@);
    if n == "Default"@ {
        match spec_checked_attr(tag, "Extension"@) {
            Err(e) => ct_fail(s, ct_msg(e.1)),
            Ok(ext) => match spec_checked_attr(tag, "ContentType"@) {
                Err(e) => ct_fail(s, ct_msg(e.1)),
                Ok(ct) => if ext is Some && ct is Some {
                    CtScanView { table: ContentTypesView { defaults: s.table.defaults.insert(spec_ascii_lowercase(ext->0), ct->0), ..s.table }, ..s }
                } else {
                    s
                },
            },
        }
    } else if n == "Override"@ {
        match spec_checked_attr(tag, "PartName"@) {
            Err(e) => ct_fail(s, ct_msg(e.1)),
            Ok(part) => match spec_checked_attr(tag, "ContentType"@) {
                Err(e) => ct_fail(s, ct_msg(e.1)),
                Ok(ct) => if part is Some && ct is Some {
                    CtScanView { table: ContentTypesView { overrides: s.table.overrides.insert(strip_one_slash(part->0), ct->0), ..s.table }, ..s }
                } else {
                    s
                },
            },
        }
    } else {
        s
    }
}

/// One token of `[Content_Types].xml`.
pub open spec fn ct_step(s: CtScanView, t: XmlToken) -> CtScanView {
    if s.phase != CtPhase::Scanning {
        s
    } else {
        match t {
            XmlToken::Start(tag) => ct_element(CtScanView { depth: if s.depth == usize::MAX { s.depth } else { (s.depth + 1) as usize }, ..s }, tag),
            XmlToken::Empty(tag) => ct_element(s, tag),
            XmlToken::End(_) => if s.depth == 0 {
                ct_fail(s, "malformed [Content_Types].xml"@)
            } else {
                CtScanView { depth: (s.depth - 1) as usize, ..s }
            },
            XmlToken::Eof => if s.depth != 0 {
                ct_fail(s, "malformed [Content_Types].xml"@)
            } else {
                CtScanView { phase: CtPhase::Done, ..s }
            },
            XmlToken::Malformed(m) => ct_fail(s, ct_msg(m@)),
            _ => s,
        }
    }
}

/// The state of the `[Content_Types].xml` scan after the tokens `toks`.
pub open spec fn ct_run(toks: Seq<XmlToken>) -> CtScanView
    decreases toks.len(),
{
    if toks.len() == 0 {
        CtScanView {
            phase: CtPhase::Scanning,
            depth: 0,
            table: ContentTypesView { defaults: Map::empty(), overrides: Map::empty() },
            error: Seq::empty(),
        }
    } else {
        ct_step(ct_run(toks.drop_last()), toks.last())
    }
}

/// What parsing `[Content_Types].xml` from its tokens gives.
pub open spec fn spec_parse_content_types(toks: Seq<XmlToken>) -> Result<ContentTypesView, Seq<char>> {
    let f = ct_run(toks);
    if f.phase == CtPhase::Failed { Err(f.error) } else { Ok(f.table) }
}

struct CtScan {
    phase: CtPhase,
    depth: usize,
    table: ContentTypes,
    error: String,
}

impl View for CtScan {
    type V = CtScanView;

    closed spec fn view(&self) -> CtScanView {
        CtScanView { phase: self.phase, depth: self.depth, table: self.table@, error: self.error@ }
    }
}

fn ct_fault_text(f: AttrFault) -> (m: String)
    ensures
        match f {
            AttrFault::Syntax(x) => m@ == ct_msg(x@),
            AttrFault::Value(x) => m@ == ct_msg(x@),
        },
{
    match f {
        AttrFault::Syntax(x) => concat_str("malformed [Content_Types].xml: ", x.as_str()),
        AttrFault::Value(x) => concat_str("malformed [Content_Types].xml: ", x.as_str()),
    }
}

/// A part name without its leading `/`.
pub fn strip_leading_slash(p: &str) -> (r: String)
    ensures
        r@ == strip_one_slash(p@),
{
    let v = chars_of(p);
    if v.len() > 0 && v[0] == '/' {
        let r = string_from(v.as_slice(), 1);
        assert(v@.subrange(1, v@.len() as int) =~= v@.drop_first());
        r
    } else {
        let r = string_from(v.as_slice(), 0);
        assert(v@.subrange(0, v@.len() as int) =~= v@);
        r
    }
}

impl CtScan {
    fn fail(&mut self, msg: String)
        ensures
            final(self)@ == ct_fail(old(self)@, msg@),
    {
        self.phase = CtPhase::Failed;
        self.error = msg;
    }

    fn element(&mut self, tag: &XmlTag)
        ensures
            final(self)@ == ct_element(old(self)@, *tag),
    {
        if local_is(tag.name.as_str(), "Default") {
            let ext = match checked_attr(tag, "Extension") {
                Err(f) => {
                    self.fail(ct_fault_text(f));
                    return;
                },
                Ok(v) => v,
            };
            let ct = match checked_attr(tag, "ContentType") {
                Err(f) => {
                    self.fail(ct_fault_text(f));
                    return;
                },
                Ok(v) => v,
            };
            if let (Some(e), Some(c)) = (ext, ct) {
                let key = ascii_lowercase(e.as_str());
                str_assoc_put(&mut self.table.defaults, key, c);
            }
        } else if local_is(tag.name.as_str(), "Override") {
            let part = match checked_attr(tag, "PartName") {
                Err(f) => {
                    self.fail(ct_fault_text(f));
                    return;
                },
                Ok(v) => v,
            };
            let ct = match checked_attr(tag, "ContentType") {
                Err(f) => {
                    self.fail(ct_fault_text(f));
                    return;
                },
                Ok(v) => v,
            };
            if let (Some(p), Some(c)) = (part, ct) {
                let key = strip_leading_slash(p.as_str());
                str_assoc_put(&mut self.table.overrides, key, c);
            }
        }
    }

    fn step(&mut self, t: &XmlToken)
        ensures
            final(self)@ == ct_step(old(self)@, *t),
    {
        if self.phase != CtPhase::Scanning {
            return;
        }
        match t {
            XmlToken::Start(tag) => {
                self.depth = self.depth.saturating_add(1);
                self.element(tag);
            },
            XmlToken::Empty(tag) => self.element(tag),
            XmlToken::End(_) => {
                if self.depth == 0 {
                    self.fail(String::from_str("malformed [Content_Types].xml"));
                } else {
                    self.depth = self.depth - 1;
                }
            },
            XmlToken::Eof => {
                if self.depth != 0 {
                    self.fail(String::from_str("malformed [Content_Types].xml"));
                } else {
                    self.phase = CtPhase::Done;
                }
            },
            XmlToken::Malformed(m) => self.fail(concat_str("malformed [Content_Types].xml: ", m.as_str())),
            _ => {},
        }
    }
}

/// Reads the content type table from the tokens of `[Content_Types].xml`.
pub fn parse_tokens(toks: &Vec<XmlToken>) -> (r: Result<ContentTypes, DocxError>)
    ensures
        match spec_parse_content_types(toks@) {
            Ok(v) => r is Ok && r->Ok_0@ == v,
            Err(m) => r is Err && is_parse_error(r->Err_0, m),
        },
{
    let mut st = CtScan { phase: CtPhase::Scanning, depth: 0, table: ContentTypes::new(), error: String::new() };
    let mut i: usize = 0;
    while i < toks.len()
        invariant
            i <= toks@.len(),
            st@ == ct_run(toks@.take(i as int)),
        decreases toks@.len() - i,
    {
        assert(toks@.take(i + 1).drop_last() =~= toks@.take(i as int));
        st.step(&toks[i]);
        i = i + 1;
    }
    assert(toks@.take(toks@.len() as int) =~= toks@);
    if st.phase == CtPhase::Failed {
        Err(parse_error(st.error))
    } else {
        Ok(st.table)
    }
}

/// Parses `[Content_Types].xml`. Empty input stands for a missing part and
/// gives an empty table.
pub fn parse(xml: &[u8]) -> (r: Result<ContentTypes, DocxError>)
    ensures
        xml@.len() == 0 ==> r is Ok && r->Ok_0@ == (ContentTypesView { defaults: Map::empty(), overrides: Map::empty() }),
        xml@.len() > 0 ==> match spec_parse_content_types(xml_tokens(xml@, true)) {
            Ok(v) => r is Ok && r->Ok_0@ == v,
            Err(m) => r is Err && is_parse_error(r->Err_0, m),
        },
{
    if xml.len() == 0 {
        return Ok(ContentTypes::new());
    }
    let mut bytes: Vec<u8> = Vec::new();
    let mut i: usize = 0;
    while i < xml.len()
        invariant
            i <= xml@.len(),
            bytes@ == xml@.take(i as int),
        decreases xml@.len() - i,
    {
        bytes.push(xml[i]);
        i = i + 1;
        assert(bytes@ =~= xml@.take(i as int));
    }
    assert(bytes@ =~= xml@);
    let toks = tokenize_xml(bytes, true);
    parse_tokens(&toks)
}

} // verus!

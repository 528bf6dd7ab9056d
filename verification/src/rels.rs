//! Relationship parts (`_rels/*.rels`, ECMA-376 Part 2 §9.3): the main
//! document, styles and numbering targets, and the hyperlink and image
//! relationships of a part.

use vstd::prelude::*;

use crate::assoc::{assoc_get, assoc_keys_distinct, assoc_map, lemma_assoc_absent, lemma_assoc_distinct_push, lemma_assoc_distinct_set, lemma_assoc_dom_len, lemma_assoc_first, lemma_assoc_push, lemma_assoc_set};
use crate::content_types::{strip_leading_slash, strip_one_slash};
use crate::events::{is_parse_error, parse_error, DocxError};
use crate::paths::{has_parent_segment, normalize_relative_target, spec_normalize_relative_target, spec_resolve_relative_target, validate_document_path};
use crate::text::{chars_of, concat_str, str_eq};
use crate::xml::{xml_tokens, local_is, local_name, tokenize_xml, well_terminated, xml_normalize_attr, xml_normalized_attr, XmlAttr, XmlTag, XmlToken};

verus! {

/// Whether `s` ends with `suf`.
pub open spec fn ends_with(s: Seq<char>, suf: Seq<char>) -> bool {
    s.len() >= suf.len() && s.subrange(s.len() - suf.len(), s.len() as int) == suf
}

/// `str::ends_with`.
pub fn str_ends_with(s: &str, suf: &str) -> (r: bool)
    ensures
        r == ends_with(s@, suf@),
{
    let a = chars_of(s);
    let b = chars_of(suf);
    if a.len() < b.len() {
        return false;
    }
    let off: usize = a.len() - b.len();
    let mut i: usize = 0;
    while i < b.len()
        invariant
            a@ == s@,
            b@ == suf@,
            off + b@.len() == a@.len(),
            i <= b@.len(),
            forall|j: int| 0 <= j < i ==> a@[off + j] == b@[j],
        decreases b@.len() - i,
    {
        assert(off + i < a.len());
        let idx: usize = off + i;
        if a[idx] != b[i] {
            assert(a@.subrange(off as int, a@.len() as int)[i as int] != b@[i as int]);
            return false;
        }
        i = i + 1;
    }
    assert(a@.subrange(off as int, a@.len() as int) =~= b@);
    true
}

/// The attributes of a `Relationship` that the queries read (the last
/// occurrence of each wins).
pub struct RelFieldsView {
    pub id: Option<Seq<char>>,
    pub rel_type: Option<Seq<char>>,
    pub target: Option<Seq<char>>,
    pub target_mode: Option<Seq<char>>,
}

/// Reads every attribute of a `Relationship` in order, normalizing each
/// value: the fields found, or the first reader or normalization message.
pub open spec fn rel_fields(attrs: Seq<Result<XmlAttr, String>>) -> Result<RelFieldsView, Seq<char>>
    decreases attrs.len(),
{
    if attrs.len() == 0 {
        Ok(RelFieldsView { id: None, rel_type: None, target: None, target_mode: None })
    } else {
        match rel_fields(attrs.drop_last()) {
            Err(m) => Err(m),
            Ok(f) => match attrs.last() {
                Err(m) => Err(m@),
                Ok(a) => match xml_normalized_attr(a.value@) {
                    Err(m) => Err(m),
                    Ok(v) => {
                        let n = local_name(a.key@);
                        if n == "Id"@ {
                            Ok(RelFieldsView { id: Some(v), ..f })
                        } else if n == "Type"@ {
                            Ok(RelFieldsView { rel_type: Some(v), ..f })
                        } else if n == "Target"@ {
                            Ok(RelFieldsView { target: Some(v), ..f })
                        } else if n == "TargetMode"@ {
                            Ok(RelFieldsView { target_mode: Some(v), ..f })
                        } else {
                            Ok(f)
                        }
                    },
                },
            },
        }
    }
}

struct RelFields {
    id: Option<String>,
    rel_type: Option<String>,
    target: Option<String>,
    target_mode: Option<String>,
}

/// The view of a string option.
pub open spec fn ov(o: Option<String>) -> Option<Seq<char>> {
    match o {
        Some(s) => Some(s@),
        None => None,
    }
}

impl View for RelFields {
    type V = RelFieldsView;

    closed spec fn view(&self) -> RelFieldsView {
        RelFieldsView { id: ov(self.id), rel_type: ov(self.rel_type), target: ov(self.target), target_mode: ov(self.target_mode) }
    }
}

fn read_rel_fields(tag: &XmlTag) -> (r: Result<RelFields, String>)
    ensures
        match rel_fields(tag.checked_attrs@) {
            Ok(f) => r is Ok && r->Ok_0@ == f,
            Err(m) => r is Err && r->Err_0@ == m,
        },
{
    let attrs = &tag.checked_attrs;
    let mut f = RelFields { id: None, rel_type: None, target: None, target_mode: None };
    let mut i: usize = 0;
    assert(attrs@.take(0) =~= Seq::<Result<XmlAttr, String>>::empty());
    while i < attrs.len()
        invariant
            attrs@ == tag.checked_attrs@,
            i <= attrs@.len(),
            rel_fields(attrs@.take(i as int)) == Ok::<RelFieldsView, Seq<char>>(f@),
        decreases attrs@.len() - i,
    {
        assert(attrs@.take(i + 1).drop_last() =~= attrs@.take(i as int));
        assert(attrs@.take(i + 1).last() == attrs@[i as int]);
        match &attrs[i] {
            Err(m) => {
                proof { lemma_rel_fields_error(attrs@, (i + 1) as nat); }
                return Err(m.clone());
            },
            Ok(a) => {
                let v = match xml_normalize_attr(a.value.as_str()) {
                    Err(m) => {
                        proof { lemma_rel_fields_error(attrs@, (i + 1) as nat); }
                        return Err(m);
                    },
                    Ok(v) => v,
                };
                let k = a.key.as_str();
                if local_is(k, "Id") {
                    f.id = Some(v);
                } else if local_is(k, "Type") {
                    f.rel_type = Some(v);
                } else if local_is(k, "Target") {
                    f.target = Some(v);
                } else if local_is(k, "TargetMode") {
                    f.target_mode = Some(v);
                }
            },
        }
        i = i + 1;
    }
    assert(attrs@.take(attrs@.len() as int) =~= attrs@);
    Ok(f)
}

proof fn lemma_rel_fields_error(attrs: Seq<Result<XmlAttr, String>>, k: nat)
    requires
        k <= attrs.len(),
        rel_fields(attrs.take(k as int)) is Err,
    ensures
        rel_fields(attrs) == rel_fields(attrs.take(k as int)),
    decreases attrs.len() - k,
{
    if k < attrs.len() {
        assert(attrs.take(k as int + 1).drop_last() =~= attrs.take(k as int));
        lemma_rel_fields_error(attrs, k + 1);
    } else {
        assert(attrs.take(k as int) =~= attrs);
    }
}

/// The target of an `officeDocument` relationship.
pub open spec fn office_target(f: RelFieldsView) -> Option<Seq<char>> {
    if f.rel_type is Some && f.target is Some && ends_with(f.rel_type->0, "/officeDocument"@) {
        f.target
    } else {
        None
    }
}

/// The target of an internal relationship whose type ends with `suffix`.
pub open spec fn internal_target(f: RelFieldsView, suffix: Seq<char>) -> Option<Seq<char>> {
    if f.rel_type is Some && f.target is Some && ends_with(f.rel_type->0, suffix) {
        if f.target_mode == Some("External"@) { None } else { f.target }
    } else {
        None
    }
}

/// The id and target of a hyperlink relationship.
pub open spec fn hyperlink_of(f: RelFieldsView) -> Option<(Seq<char>, Seq<char>)> {
    if f.id is Some && f.rel_type is Some && f.target is Some && ends_with(f.rel_type->0, "/hyperlink"@) {
        Some((f.id->0, f.target->0))
    } else {
        None
    }
}

/// The id and target of an image relationship, and whether it is external.
pub open spec fn image_of(f: RelFieldsView) -> Option<(Seq<char>, Seq<char>, bool)> {
    if f.id is Some && f.rel_type is Some && f.target is Some && ends_with(f.rel_type->0, "/image"@) {
        Some((f.id->0, f.target->0, f.target_mode == Some("External"@)))
    } else {
        None
    }
}

/// An image relationship: the resolved package path of an internal image,
/// or the URL of an external one.
#[derive(Debug, Clone, PartialEq, Eq)]
pub struct ImageRel {
    pub target: String,
    /// `true` when `TargetMode="External"`.
    pub is_external: bool,
}

/// The relationships a scan is looking for.
#[derive(Debug, Clone, Copy, PartialEq, Eq, Structural)]
pub enum RelQuery {
    OfficeDocument,
    Styles,
    Numbering,
    Hyperlinks,
    Images,
}

#[derive(Debug, Clone, Copy, PartialEq, Eq, Structural)]
pub enum RelPhase {
    Scanning,
    Done,
    Failed,
}

/// The state of a scan of a relationships part.
pub struct RelScanView {
    pub phase: RelPhase,
    pub depth: usize,
    /// The validated target path that ended a target search.
    pub found: Option<Seq<char>>,
    pub hyperlinks: Map<Seq<char>, Seq<char>>,
    pub images: Map<Seq<char>, (Seq<char>, bool)>,
    pub error: Seq<char>,
}

/// The scan stopped with the error `msg`.
pub open spec fn rel_fail(s: RelScanView, msg: Seq<char>) -> RelScanView {
    RelScanView { phase: RelPhase::Failed, error: msg, ..s }
}

/// A target found: without its leading `/`, and refused when one of its
/// segments is `..`.
pub open spec fn rel_found(s: RelScanView, target: Seq<char>) -> RelScanView {
    let p = strip_one_slash(target);
    if has_parent_segment(p) {
        rel_fail(s, "rels target contains parent reference: "@ + p)
    } else {
        RelScanView { phase: RelPhase::Done, found: Some(p), ..s }
    }
}

/// The scan after a `Relationship` element.
pub open spec fn rel_on_relationship(q: RelQuery, doc: Seq<char>, s: RelScanView, tag: XmlTag) -> RelScanView {
    match rel_fields(tag.checked_attrs@) {
        Err(m) => rel_fail(s, "malformed _rels/.rels: "@ + m),
        Ok(f) => match q {
            RelQuery::OfficeDocument => match office_target(f) {
                Some(t) => rel_found(s, t),
                None => s,
            },
            RelQuery::Styles => match internal_target(f, "/styles"@) {
                Some(t) => rel_found(s, t),
                None => s,
            },
            RelQuery::Numbering => match internal_target(f, "/numbering"@) {
                Some(t) => rel_found(s, t),
                None => s,
            },
            RelQuery::Hyperlinks => match hyperlink_of(f) {
                Some((id, t)) => RelScanView { hyperlinks: s.hyperlinks.insert(id, t), ..s },
                None => s,
            },
            RelQuery::Images => match image_of(f) {
                Some((id, t, ext)) => if ext {
                    RelScanView { images: s.images.insert(id, (t, true)), ..s }
                } else {
                    match spec_normalize_relative_target(doc, t) {
                        Some(p) => RelScanView { images: s.images.insert(id, (p, false)), ..s },
                        None => rel_fail(s, "rels target escapes package root: "@ + spec_resolve_relative_target(doc, t)),
                    }
                },
                None => s,
            },
        },
    }
}

/// One token of a relationships part.
pub open spec fn rel_step(q: RelQuery, doc: Seq<char>, s: RelScanView, t: XmlToken) -> RelScanView {
    if s.phase != RelPhase::Scanning {
        s
    } else {
        match t {
            XmlToken::Start(tag) => {
                let s1 = RelScanView { depth: if s.depth == usize::MAX { s.depth } else { (s.depth + 1) as usize }, ..s };
                if local_name(tag.name@) == "Relationship"@ { rel_on_relationship(q, doc, s1, tag) } else { s1 }
            },
            XmlToken::Empty(tag) => if local_name(tag.name@) == "Relationship"@ {
                rel_on_relationship(q, doc, s, tag)
            } else {
                s
            },
            XmlToken::End(_) => if s.depth == 0 {
                rel_fail(s, "malformed _rels/.rels"@)
            } else {
                RelScanView { depth: (s.depth - 1) as usize, ..s }
            },
            XmlToken::Eof => if s.depth != 0 {
                rel_fail(s, "malformed _rels/.rels"@)
            } else if q == RelQuery::OfficeDocument {
                rel_fail(s, "no officeDocument relationship"@)
            } else {
                RelScanView { phase: RelPhase::Done, ..s }
            },
            XmlToken::Malformed(_) => rel_fail(s, "malformed _rels/.rels"@),
            _ => s,
        }
    }
}

/// The state of a relationships scan before any token.
pub open spec fn rel_initial() -> RelScanView {
    RelScanView { phase: RelPhase::Scanning, depth: 0, found: None, hyperlinks: Map::empty(), images: Map::empty(), error: Seq::empty() }
}

/// The state of a relationships scan after the tokens `toks`.
pub open spec fn rel_run(q: RelQuery, doc: Seq<char>, toks: Seq<XmlToken>) -> RelScanView
    decreases toks.len(),
{
    if toks.len() == 0 {
        rel_initial()
    } else {
        rel_step(q, doc, rel_run(q, doc, toks.drop_last()), toks.last())
    }
}

/// The view of a string table.
pub open spec fn pairs_view(v: Seq<(String, String)>) -> Seq<(Seq<char>, Seq<char>)> {
    v.map_values(|e: (String, String)| (e.0@, e.1@))
}

/// The view of an image table.
pub open spec fn images_view(v: Seq<(String, ImageRel)>) -> Seq<(Seq<char>, (Seq<char>, bool))> {
    v.map_values(|e: (String, ImageRel)| (e.0@, (e.1.target@, e.1.is_external)))
}

/// Relationship id → target of every hyperlink relationship.
#[derive(Debug)]
pub struct HyperlinkMap {
    entries: Vec<(String, String)>,
}

impl View for HyperlinkMap {
    type V = Map<Seq<char>, Seq<char>>;

    closed spec fn view(&self) -> Map<Seq<char>, Seq<char>> {
        assoc_map(pairs_view(self.entries@))
    }
}

/// Relationship id → image relationship.
#[derive(Debug)]
pub struct ImageMap {
    entries: Vec<(String, ImageRel)>,
}

impl View for ImageMap {
    type V = Map<Seq<char>, (Seq<char>, bool)>;

    closed spec fn view(&self) -> Map<Seq<char>, (Seq<char>, bool)> {
        assoc_map(images_view(self.entries@))
    }
}

impl HyperlinkMap {
    /// No relationship id occurs twice.
    #[verifier::type_invariant]
    spec fn inv(&self) -> bool {
        assoc_keys_distinct(pairs_view(self.entries@))
    }

    pub fn new() -> (m: HyperlinkMap)
        ensures
            m@ == Map::<Seq<char>, Seq<char>>::empty(),
    {
        let m = HyperlinkMap { entries: Vec::new() };
        assert(m@ =~= Map::<Seq<char>, Seq<char>>::empty());
        m
    }

    fn find(&self, k: &str) -> (r: Option<usize>)
        ensures
            match r {
                Some(i) => i < self.entries@.len() && pairs_view(self.entries@)[i as int].0 == k@
                    && forall|j: int| 0 <= j < i ==> pairs_view(self.entries@)[j].0 != k@,
                None => forall|j: int| 0 <= j < self.entries@.len() ==> pairs_view(self.entries@)[j].0 != k@,
            },
    {
        let mut i: usize = 0;
        while i < self.entries.len()
            invariant
                i <= self.entries@.len(),
                forall|j: int| 0 <= j < i ==> pairs_view(self.entries@)[j].0 != k@,
            decreases self.entries@.len() - i,
        {
            assert(pairs_view(self.entries@)[i as int].0 == self.entries@[i as int].0@);
            if str_eq(self.entries[i].0.as_str(), k) {
                return Some(i);
            }
            i = i + 1;
        }
        None
    }

    /// Sets the target of relationship `id`, replacing an earlier one.
    pub fn insert(&mut self, id: String, target: String)
        ensures
            final(self)@ == old(self)@.insert(id@, target@),
    {
        proof { use_type_invariant(&*self); }
        let ghost before = pairs_view(self.entries@);
        let ghost (kv, vv) = (id@, target@);
        let found = self.find(id.as_str());
        let mut entries = Vec::new();
        std::mem::swap(&mut entries, &mut self.entries);
        match found {
            Some(i) => {
                proof {
                    lemma_assoc_set(before, i as int, kv, vv);
                    lemma_assoc_distinct_set(before, i as int, kv, vv);
                }
                entries.set(i, (id, target));
                assert(pairs_view(entries@) =~= before.update(i as int, (kv, vv)));
            },
            None => {
                proof {
                    lemma_assoc_push(before, kv, vv);
                    lemma_assoc_distinct_push(before, kv, vv);
                }
                entries.push((id, target));
                assert(pairs_view(entries@) =~= before.push((kv, vv)));
            },
        }
        self.entries = entries;
        assert(self@ =~= assoc_map(before).insert(kv, vv));
    }

    /// The number of relationships held.
    pub fn len(&self) -> (n: usize)
        ensures
            self@.dom().finite(),
            n == self@.dom().len(),
    {
        proof {
            use_type_invariant(self);
            lemma_assoc_dom_len(pairs_view(self.entries@));
        }
        self.entries.len()
    }

    /// The target of relationship `id`.
    pub fn get(&self, id: &str) -> (r: Option<&str>)
        ensures
            match r {
                Some(t) => self@.contains_key(id@) && t@ == self@[id@],
                None => !self@.contains_key(id@),
            },
    {
        match self.find(id) {
            Some(i) => {
                proof { lemma_assoc_first(pairs_view(self.entries@), i as int, id@); }
                Some(self.entries[i].1.as_str())
            },
            None => {
                proof { lemma_assoc_absent(pairs_view(self.entries@), id@); }
                None
            },
        }
    }
}

impl Default for HyperlinkMap {
    /// The empty map, as [`HyperlinkMap::new`].
    fn default() -> (m: Self)
        ensures
            m@ == Map::<Seq<char>, Seq<char>>::empty(),
    {
        HyperlinkMap::new()
    }
}

impl Default for ImageMap {
    /// The empty map, as [`ImageMap::new`].
    fn default() -> (m: Self)
        ensures
            m@ == Map::<Seq<char>, (Seq<char>, bool)>::empty(),
    {
        ImageMap::new()
    }
}

impl ImageMap {
    /// No relationship id occurs twice.
    #[verifier::type_invariant]
    spec fn inv(&self) -> bool {
        assoc_keys_distinct(images_view(self.entries@))
    }

    pub fn new() -> (m: ImageMap)
        ensures
            m@ == Map::<Seq<char>, (Seq<char>, bool)>::empty(),
    {
        let m = ImageMap { entries: Vec::new() };
        assert(m@ =~= Map::<Seq<char>, (Seq<char>, bool)>::empty());
        m
    }

    fn find(&self, k: &str) -> (r: Option<usize>)
        ensures
            match r {
                Some(i) => i < self.entries@.len() && images_view(self.entries@)[i as int].0 == k@
                    && forall|j: int| 0 <= j < i ==> images_view(self.entries@)[j].0 != k@,
                None => forall|j: int| 0 <= j < self.entries@.len() ==> images_view(self.entries@)[j].0 != k@,
            },
    {
        let mut i: usize = 0;
        while i < self.entries.len()
            invariant
                i <= self.entries@.len(),
                forall|j: int| 0 <= j < i ==> images_view(self.entries@)[j].0 != k@,
            decreases self.entries@.len() - i,
        {
            assert(images_view(self.entries@)[i as int].0 == self.entries@[i as int].0@);
            if str_eq(self.entries[i].0.as_str(), k) {
                return Some(i);
            }
            i = i + 1;
        }
        None
    }

    /// Sets the image of relationship `id`, replacing an earlier one.
    pub fn insert(&mut self, id: String, rel: ImageRel)
        ensures
            final(self)@ == old(self)@.insert(id@, (rel.target@, rel.is_external)),
    {
        proof { use_type_invariant(&*self); }
        let ghost before = images_view(self.entries@);
        let ghost (kv, vv) = (id@, (rel.target@, rel.is_external));
        let found = self.find(id.as_str());
        let mut entries = Vec::new();
        std::mem::swap(&mut entries, &mut self.entries);
        match found {
            Some(i) => {
                proof {
                    lemma_assoc_set(before, i as int, kv, vv);
                    lemma_assoc_distinct_set(before, i as int, kv, vv);
                }
                entries.set(i, (id, rel));
                assert(images_view(entries@) =~= before.update(i as int, (kv, vv)));
            },
            None => {
                proof {
                    lemma_assoc_push(before, kv, vv);
                    lemma_assoc_distinct_push(before, kv, vv);
                }
                entries.push((id, rel));
                assert(images_view(entries@) =~= before.push((kv, vv)));
            },
        }
        self.entries = entries;
        assert(self@ =~= assoc_map(before).insert(kv, vv));
    }

    /// The number of relationships held.
    pub fn len(&self) -> (n: usize)
        ensures
            self@.dom().finite(),
            n == self@.dom().len(),
    {
        proof {
            use_type_invariant(self);
            lemma_assoc_dom_len(images_view(self.entries@));
        }
        self.entries.len()
    }

    /// The image of relationship `id`.
    pub fn get(&self, id: &str) -> (r: Option<&ImageRel>)
        ensures
            match r {
                Some(x) => self@.contains_key(id@) && (x.target@, x.is_external) == self@[id@],
                None => !self@.contains_key(id@),
            },
    {
        match self.find(id) {
            Some(i) => {
                proof { lemma_assoc_first(images_view(self.entries@), i as int, id@); }
                Some(&self.entries[i].1)
            },
            None => {
                proof { lemma_assoc_absent(images_view(self.entries@), id@); }
                None
            },
        }
    }
}

struct RelScan {
    phase: RelPhase,
    depth: usize,
    found: Option<String>,
    hyperlinks: HyperlinkMap,
    images: ImageMap,
    error: String,
}

impl View for RelScan {
    type V = RelScanView;

    closed spec fn view(&self) -> RelScanView {
        RelScanView {
            phase: self.phase,
            depth: self.depth,
            found: ov(self.found),
            hyperlinks: self.hyperlinks@,
            images: self.images@,
            error: self.error@,
        }
    }
}

impl RelScan {
    fn fail(&mut self, msg: String)
        ensures
            final(self)@ == rel_fail(old(self)@, msg@),
    {
        self.phase = RelPhase::Failed;
        self.error = msg;
    }

    fn found_target(&mut self, target: &str)
        ensures
            final(self)@ == rel_found(old(self)@, target@),
    {
        let p = strip_leading_slash(target);
        match validate_document_path(p.as_str()) {
            Ok(v) => {
                self.phase = RelPhase::Done;
                self.found = Some(v);
            },
            Err(_) => self.fail(concat_str("rels target contains parent reference: ", p.as_str())),
        }
    }

    fn on_relationship(&mut self, q: RelQuery, doc: &str, tag: &XmlTag)
        ensures
            final(self)@ == rel_on_relationship(q, doc@, old(self)@, *tag),
    {
        let f = match read_rel_fields(tag) {
            Err(m) => {
                self.fail(concat_str("malformed _rels/.rels: ", m.as_str()));
                return;
            },
            Ok(f) => f,
        };
        let typ = match &f.rel_type {
            Some(t) => t.as_str(),
            None => {
                return;
            },
        };
        let target = match &f.target {
            Some(t) => t.as_str(),
            None => {
                return;
            },
        };
        let external = match &f.target_mode {
            Some(m) => str_eq(m.as_str(), "External"),
            None => false,
        };
        match q {
            RelQuery::OfficeDocument => {
                if str_ends_with(typ, "/officeDocument") {
                    self.found_target(target);
                }
            },
            RelQuery::Styles => {
                if str_ends_with(typ, "/styles") && !external {
                    self.found_target(target);
                }
            },
            RelQuery::Numbering => {
                if str_ends_with(typ, "/numbering") && !external {
                    self.found_target(target);
                }
            },
            RelQuery::Hyperlinks => {
                if let Some(id) = &f.id {
                    if str_ends_with(typ, "/hyperlink") {
                        self.hyperlinks.insert(id.clone(), target.to_owned());
                    }
                }
            },
            RelQuery::Images => {
                if let Some(id) = &f.id {
                    if str_ends_with(typ, "/image") {
                        if external {
                            self.images.insert(id.clone(), ImageRel { target: target.to_owned(), is_external: true });
                        } else {
                            match normalize_relative_target(doc, target) {
                                Ok(p) => self.images.insert(id.clone(), ImageRel { target: p, is_external: false }),
                                Err(e) => {
                                    let msg = match e {
                                        DocxError::Parse { message, position: _ } => message,
                                        DocxError::Io { message } => message,
                                    };
                                    self.fail(msg);
                                },
                            }
                        }
                    }
                }
            },
        }
    }

    fn step(&mut self, q: RelQuery, doc: &str, t: &XmlToken)
        ensures
            final(self)@ == rel_step(q, doc@, old(self)@, *t),
    {
        if self.phase != RelPhase::Scanning {
            return;
        }
        match t {
            XmlToken::Start(tag) => {
                self.depth = self.depth.saturating_add(1);
                if local_is(tag.name.as_str(), "Relationship") {
                    self.on_relationship(q, doc, tag);
                }
            },
            XmlToken::Empty(tag) => {
                if local_is(tag.name.as_str(), "Relationship") {
                    self.on_relationship(q, doc, tag);
                }
            },
            XmlToken::End(_) => {
                if self.depth == 0 {
                    self.fail(String::from_str("malformed _rels/.rels"));
                } else {
                    self.depth = self.depth - 1;
                }
            },
            XmlToken::Eof => {
                if self.depth != 0 {
                    self.fail(String::from_str("malformed _rels/.rels"));
                } else if q == RelQuery::OfficeDocument {
                    self.fail(String::from_str("no officeDocument relationship"));
                } else {
                    self.phase = RelPhase::Done;
                }
            },
            XmlToken::Malformed(_) => self.fail(String::from_str("malformed _rels/.rels")),
            _ => {},
        }
    }
}

fn run_scan(q: RelQuery, doc: &str, toks: &Vec<XmlToken>) -> (st: RelScan)
    ensures
        st@ == rel_run(q, doc@, toks@),
{
    let mut st = RelScan {
        phase: RelPhase::Scanning,
        depth: 0,
        found: None,
        hyperlinks: HyperlinkMap::new(),
        images: ImageMap::new(),
        error: String::new(),
    };
    let mut i: usize = 0;
    while i < toks.len()
        invariant
            i <= toks@.len(),
            st@ == rel_run(q, doc@, toks@.take(i as int)),
        decreases toks@.len() - i,
    {
        assert(toks@.take(i + 1).drop_last() =~= toks@.take(i as int));
        st.step(q, doc, &toks[i]);
        i = i + 1;
    }
    assert(toks@.take(toks@.len() as int) =~= toks@);
    st
}

/// What a target search over the tokens of a relationships part gives: the
/// validated target, none when the part has no such relationship, or the
/// failure's message.
pub open spec fn spec_target_search(q: RelQuery, toks: Seq<XmlToken>) -> Result<Option<Seq<char>>, Seq<char>> {
    let f = rel_run(q, Seq::empty(), toks);
    if f.phase == RelPhase::Failed { Err(f.error) } else { Ok(f.found) }
}

/// The target search of `q` over the tokens of a relationships part: the
/// validated target, none when the part has no such relationship, or the
/// failure as a parse error.
pub fn target_in_tokens(q: RelQuery, toks: &Vec<XmlToken>) -> (r: Result<Option<String>, DocxError>)
    ensures
        match spec_target_search(q, toks@) {
            Ok(v) => r is Ok && ov(r->Ok_0) == v,
            Err(m) => r is Err && is_parse_error(r->Err_0, m),
        },
{
    let st = run_scan(q, "", toks);
    assert(""@ =~= Seq::<char>::empty()) by {
        reveal_strlit("");
    }
    if st.phase == RelPhase::Failed {
        Err(parse_error(st.error))
    } else {
        Ok(st.found)
    }
}

fn target_search(q: RelQuery, xml: &[u8]) -> (r: Result<Option<String>, DocxError>)
    ensures
        match spec_target_search(q, xml_tokens(xml@, true)) {
            Ok(v) => r is Ok && ov(r->Ok_0) == v,
            Err(m) => r is Err && is_parse_error(r->Err_0, m),
        },
{
    let toks = tokenize_xml(copy_bytes(xml), true);
    target_in_tokens(q, &toks)
}

fn copy_bytes(xml: &[u8]) -> (v: Vec<u8>)
    ensures
        v@ == xml@,
{
    let mut v: Vec<u8> = Vec::new();
    let mut i: usize = 0;
    while i < xml.len()
        invariant
            i <= xml@.len(),
            v@ == xml@.take(i as int),
        decreases xml@.len() - i,
    {
        v.push(xml[i]);
        i = i + 1;
        assert(v@ =~= xml@.take(i as int));
    }
    assert(xml@.take(xml@.len() as int) =~= xml@);
    v
}

/// The main document part named by the package relationships
/// (`_rels/.rels`): the target of the first relationship whose type ends
/// with `/officeDocument`, without its leading `/`. A target with a `..`
/// segment, a part without such a relationship, and malformed XML are errors.
pub fn find_document_target(xml: &[u8]) -> (r: Result<String, DocxError>)
    ensures
        match spec_target_search(RelQuery::OfficeDocument, xml_tokens(xml@, true)) {
            Ok(Some(p)) => r is Ok && r->Ok_0@ == p,
            Ok(None) => r is Err && is_parse_error(r->Err_0, "no officeDocument relationship"@),
            Err(m) => r is Err && is_parse_error(r->Err_0, m),
        },
{
    match target_search(RelQuery::OfficeDocument, xml) {
        Ok(Some(p)) => Ok(p),
        Ok(None) => Err(parse_error(String::from_str("no officeDocument relationship"))),
        Err(e) => Err(e),
    }
}

/// The styles part named by a part's relationships: the target of the first
/// internal relationship whose type ends with `/styles`, without its leading
/// `/`; none when there is none (legal per ECMA-376 §11.3.12). A target with
/// a `..` segment and malformed XML are errors.
pub fn find_styles_target(xml: &[u8]) -> (r: Result<Option<String>, DocxError>)
    ensures
        match spec_target_search(RelQuery::Styles, xml_tokens(xml@, true)) {
            Ok(v) => r is Ok && ov(r->Ok_0) == v,
            Err(m) => r is Err && is_parse_error(r->Err_0, m),
        },
{
    target_search(RelQuery::Styles, xml)
}

/// The numbering part named by a part's relationships, as
/// [`find_styles_target`] does it for `/numbering` (ECMA-376 §17.9).
pub fn find_numbering_target(xml: &[u8]) -> (r: Result<Option<String>, DocxError>)
    ensures
        match spec_target_search(RelQuery::Numbering, xml_tokens(xml@, true)) {
            Ok(v) => r is Ok && ov(r->Ok_0) == v,
            Err(m) => r is Err && is_parse_error(r->Err_0, m),
        },
{
    target_search(RelQuery::Numbering, xml)
}

/// What collecting the hyperlink relationships from tokens gives.
pub open spec fn spec_hyperlinks(toks: Seq<XmlToken>) -> Result<Map<Seq<char>, Seq<char>>, Seq<char>> {
    let f = rel_run(RelQuery::Hyperlinks, Seq::empty(), toks);
    if f.phase == RelPhase::Failed { Err(f.error) } else { Ok(f.hyperlinks) }
}

/// Every relationship whose type ends with `/hyperlink`, by id (a later one
/// replaces an earlier one with the same id).
pub fn collect_hyperlink_map(xml: &[u8]) -> (r: Result<HyperlinkMap, DocxError>)
    ensures
        match spec_hyperlinks(xml_tokens(xml@, true)) {
            Ok(v) => r is Ok && r->Ok_0@ == v,
            Err(m) => r is Err && is_parse_error(r->Err_0, m),
        },
{
    let toks = tokenize_xml(copy_bytes(xml), true);
    hyperlinks_in_tokens(&toks)
}

/// The hyperlink relationships of the tokens of a relationships part, as
/// [`collect_hyperlink_map`] gathers them.
pub fn hyperlinks_in_tokens(toks: &Vec<XmlToken>) -> (r: Result<HyperlinkMap, DocxError>)
    ensures
        match spec_hyperlinks(toks@) {
            Ok(v) => r is Ok && r->Ok_0@ == v,
            Err(m) => r is Err && is_parse_error(r->Err_0, m),
        },
{
    let st = run_scan(RelQuery::Hyperlinks, "", toks);
    assert(""@ =~= Seq::<char>::empty()) by {
        reveal_strlit("");
    }
    if st.phase == RelPhase::Failed {
        Err(parse_error(st.error))
    } else {
        Ok(st.hyperlinks)
    }
}

/// What collecting the image relationships from tokens gives.
pub open spec fn spec_images(toks: Seq<XmlToken>, document_path: Seq<char>) -> Result<Map<Seq<char>, (Seq<char>, bool)>, Seq<char>> {
    let f = rel_run(RelQuery::Images, document_path, toks);
    if f.phase == RelPhase::Failed { Err(f.error) } else { Ok(f.images) }
}

/// Every relationship whose type ends with `/image`, by id: an external
/// image keeps its URL, an internal one is resolved against
/// `document_path` with `.`/`..` collapsed; one that climbs above the
/// package root is an error.
pub fn collect_image_map(rels_xml: &[u8], document_path: &str) -> (r: Result<ImageMap, DocxError>)
    ensures
        match spec_images(xml_tokens(rels_xml@, true), document_path@) {
            Ok(v) => r is Ok && r->Ok_0@ == v,
            Err(m) => r is Err && is_parse_error(r->Err_0, m),
        },
{
    let toks = tokenize_xml(copy_bytes(rels_xml), true);
    images_in_tokens(&toks, document_path)
}

/// The image relationships of the tokens of a relationships part, as
/// [`collect_image_map`] gathers them.
pub fn images_in_tokens(toks: &Vec<XmlToken>, document_path: &str) -> (r: Result<ImageMap, DocxError>)
    ensures
        match spec_images(toks@, document_path@) {
            Ok(v) => r is Ok && r->Ok_0@ == v,
            Err(m) => r is Err && is_parse_error(r->Err_0, m),
        },
{
    let st = run_scan(RelQuery::Images, document_path, toks);
    if st.phase == RelPhase::Failed {
        Err(parse_error(st.error))
    } else {
        Ok(st.images)
    }
}

} // verus!

//! The ZIP package: its parts are found through the package relationships
//! and read with the `zip` crate from the bytes in memory.

use vstd::prelude::*;

use crate::content_types::{self, ContentTypes};
use crate::document::{spec_body_sound, table_nested, DocumentReader, DocxData, Phase};
use crate::events::{is_parse_error, parse_error, DocxError, Event, EventView};
use crate::numbering::{parse_numbering, spec_parse_numbering, MinimalNumbering};
use crate::xml::{xml_tokens, XmlToken};
use crate::paths::{derive_part_rels_path, resolve_relative_target, spec_derive_part_rels_path, spec_resolve_relative_target};
use crate::rels::{collect_hyperlink_map, collect_image_map, find_document_target, find_numbering_target, find_styles_target, spec_hyperlinks, spec_images, spec_target_search, HyperlinkMap, ImageMap, RelQuery};
use crate::styles::{spec_parse_styles, StyleList};
use crate::text::{chars_of, concat_str, str_eq};

verus! {

#[verifier::external_type_specification]
#[verifier::external_body]
#[verifier::reject_recursive_types(R)]
pub struct ExZipArchive<R>(zip::ZipArchive<R>);

/// The entries of an archive: each name with the bytes it holds.
pub uninterp spec fn zip_entries(a: zip::ZipArchive<std::io::Cursor<Vec<u8>>>) -> Map<Seq<char>, Seq<u8>>;

/// Why the bytes could not be opened as a ZIP archive.
pub enum ZipOpenFault {
    /// Not a ZIP archive, or one the `zip` crate does not support (the
    /// error's message).
    NotZip(String),
    /// Reading failed (the error's message).
    Io(String),
    /// Any other failure (the error's message).
    Other(String),
}

/// Why an entry could not be read.
pub enum ZipReadFault {
    /// Finding the entry failed for a reason other than its absence.
    Lookup(String),
    /// Reading its bytes failed.
    Io(String),
}

/// What `bytes` open as: the entries of the ZIP archive they hold, or none
/// when they do not open as one.
pub uninterp spec fn zip_opened(bytes: Seq<u8>) -> Option<Map<Seq<char>, Seq<u8>>>;

/// The names of the entries of an archive whose reading fails: the lookup
/// by name, or reading the entry to its end, returns an error.
pub uninterp spec fn zip_unreadable(a: zip::ZipArchive<std::io::Cursor<Vec<u8>>>) -> Set<Seq<char>>;

/// The names of the entries whose reading fails in the archive that `bytes`
/// open as.
pub uninterp spec fn zip_unreadable_in(bytes: Seq<u8>) -> Set<Seq<char>>;

/// Opens `bytes` as a ZIP archive.
///
/// Trusted: wraps `zip::ZipArchive::new` over an in-memory cursor; its errors
/// are sorted by variant. The contract claims only that the outcome is a
/// function of the bytes: an archive whose entries, and whose entries that
/// fail to read (entries it holds: the lookup of an absent name reports it
/// absent), are those of the bytes, or a failure for every archive the bytes
/// do not hold. Which bytes open, and why others fail, is left unsaid.
#[verifier::external_body]
pub(crate) fn zip_open(bytes: Vec<u8>) -> (r: Result<zip::ZipArchive<std::io::Cursor<Vec<u8>>>, ZipOpenFault>)
    ensures
        match r {
            Ok(a) => zip_opened(bytes@) == Some(zip_entries(a)) && zip_unreadable(a) == zip_unreadable_in(bytes@)
                && zip_unreadable(a).subset_of(zip_entries(a).dom()),
            Err(_) => zip_opened(bytes@) is None,
        },
{
    match zip::ZipArchive::new(std::io::Cursor::new(bytes)) {
        Ok(a) => Ok(a),
        Err(e @ zip::result::ZipError::InvalidArchive(_)) => Err(ZipOpenFault::NotZip(e.to_string())),
        Err(e @ zip::result::ZipError::UnsupportedArchive(_)) => Err(ZipOpenFault::NotZip(e.to_string())),
        Err(zip::result::ZipError::Io(e)) => Err(ZipOpenFault::Io(e.to_string())),
        Err(e) => Err(ZipOpenFault::Other(e.to_string())),
    }
}

/// Reads the entry named `name`.
///
/// Trusted: wraps `ZipArchive::by_name` and reads the entry to its end. The
/// contract claims that an absent name is reported as absent
/// (`ZipError::FileNotFound`), that the bytes read are the entry's, that the
/// read fails exactly for the entries whose reading fails, and that reading
/// leaves the entries, and which of them fail, as they were (`by_name` seeks
/// to the entry each time). Why a lookup or a read fails is left unsaid.
#[verifier::external_body]
pub(crate) fn zip_read(archive: &mut zip::ZipArchive<std::io::Cursor<Vec<u8>>>, name: &str) -> (r: Result<Option<Vec<u8>>, ZipReadFault>)
    ensures
        zip_entries(*final(archive)) == zip_entries(*old(archive)),
        zip_unreadable(*final(archive)) == zip_unreadable(*old(archive)),
        r is Err <==> zip_unreadable(*old(archive)).contains(name@),
        r matches Ok(Some(b)) ==> zip_entries(*old(archive)).contains_key(name@) && b@ == zip_entries(*old(archive))[name@],
        r matches Ok(None) <==> !zip_entries(*old(archive)).contains_key(name@),
{
    match archive.by_name(name) {
        Ok(mut f) => {
            let mut b = Vec::new();
            match std::io::Read::read_to_end(&mut f, &mut b) {
                Ok(_) => Ok(Some(b)),
                Err(e) => Err(ZipReadFault::Io(e.to_string())),
            }
        },
        Err(zip::result::ZipError::FileNotFound) => Ok(None),
        Err(e) => Err(ZipReadFault::Lookup(e.to_string())),
    }
}

/// The parts of a package that the document reader needs, and the archive
/// for its assets.
pub struct DocxPackage {
    pub style_list: StyleList,
    pub numbering: MinimalNumbering,
    pub hyperlink_map: HyperlinkMap,
    pub image_map: ImageMap,
    pub content_types: ContentTypes,
    /// The path of the main document part.
    pub document_path: String,
    /// The bytes of the main document part.
    pub document_xml: Vec<u8>,
    /// The archive, for reading the package's assets.
    pub archive: zip::ZipArchive<std::io::Cursor<Vec<u8>>>,
}

impl DocxPackage {
    /// The entries of the package's archive.
    pub open spec fn entries(&self) -> Map<Seq<char>, Seq<u8>> {
        zip_entries(self.archive)
    }

    /// Reads an entry of the package, none when it is absent.
    pub fn read_entry(&mut self, name: &str) -> (r: Result<Option<Vec<u8>>, DocxError>)
        ensures
            final(self).entries() == old(self).entries(),
            zip_unreadable(final(self).archive) == zip_unreadable(old(self).archive),
            r is Err <==> zip_unreadable(old(self).archive).contains(name@),
            r matches Ok(Some(b)) ==> old(self).entries().contains_key(name@) && b@ == old(self).entries()[name@],
            r matches Ok(None) <==> !old(self).entries().contains_key(name@),
            final(self).numbering == old(self).numbering,
    {
        match zip_read(&mut self.archive, name) {
            Ok(v) => Ok(v),
            Err(ZipReadFault::Lookup(m)) => Err(parse_error(concat_str("malformed ZIP: ", m.as_str()))),
            Err(ZipReadFault::Io(m)) => Err(DocxError::Io { message: m }),
        }
    }
}

fn open_fault_error(f: ZipOpenFault) -> (e: DocxError)
    ensures
        match f {
            ZipOpenFault::NotZip(_) => is_parse_error(e, "not a valid ZIP archive"@),
            ZipOpenFault::Io(m) => e == DocxError::Io { message: m },
            ZipOpenFault::Other(m) => is_parse_error(e, "not a valid ZIP archive: "@ + m@),
        },
{
    match f {
        ZipOpenFault::NotZip(_) => parse_error(String::from_str("not a valid ZIP archive")),
        ZipOpenFault::Io(m) => DocxError::Io { message: m },
        ZipOpenFault::Other(m) => parse_error(concat_str("not a valid ZIP archive: ", m.as_str())),
    }
}

/// Opens `bytes` as a ZIP archive for streaming one of its entries: any
/// failure but a failed read is reported with the `zip` crate's message.
pub fn open_zip_archive(bytes: Vec<u8>) -> (r: Result<zip::ZipArchive<std::io::Cursor<Vec<u8>>>, DocxError>)
    ensures
        r is Ok <==> zip_opened(bytes@) is Some,
        r matches Ok(a) ==> zip_opened(bytes@) == Some(zip_entries(a)),
        r matches Err(e) ==> e is Io || exists|m: Seq<char>| is_parse_error(e, "not a valid ZIP archive: "@ + m),
{
    match zip_open(bytes) {
        Ok(a) => Ok(a),
        Err(ZipOpenFault::Io(m)) => Err(DocxError::Io { message: m }),
        Err(ZipOpenFault::NotZip(m)) => {
            let e = parse_error(concat_str("not a valid ZIP archive: ", m.as_str()));
            assert(is_parse_error(e, "not a valid ZIP archive: "@ + m@));
            Err(e)
        },
        Err(ZipOpenFault::Other(m)) => {
            let e = parse_error(concat_str("not a valid ZIP archive: ", m.as_str()));
            assert(is_parse_error(e, "not a valid ZIP archive: "@ + m@));
            Err(e)
        },
    }
}

/// Reads an optional entry: absent is none; a failed lookup is a malformed
/// ZIP; a failed read is an I/O error.
fn read_optional_entry(archive: &mut zip::ZipArchive<std::io::Cursor<Vec<u8>>>, path: &str) -> (r: Result<Option<Vec<u8>>, DocxError>)
    ensures
        zip_entries(*final(archive)) == zip_entries(*old(archive)),
        zip_unreadable(*final(archive)) == zip_unreadable(*old(archive)),
        r is Err <==> zip_unreadable(*old(archive)).contains(path@),
        r matches Ok(Some(b)) ==> zip_entries(*old(archive)).contains_key(path@) && b@ == zip_entries(*old(archive))[path@],
        r matches Ok(None) <==> !zip_entries(*old(archive)).contains_key(path@),
{
    match zip_read(archive, path) {
        Ok(v) => Ok(v),
        Err(ZipReadFault::Lookup(m)) => Err(parse_error(concat_str("malformed ZIP: ", m.as_str()))),
        Err(ZipReadFault::Io(m)) => Err(DocxError::Io { message: m }),
    }
}

/// Reads `_rels/.rels`: a missing part is an error.
fn read_root_rels_bytes(archive: &mut zip::ZipArchive<std::io::Cursor<Vec<u8>>>) -> (r: Result<Vec<u8>, DocxError>)
    ensures
        zip_entries(*final(archive)) == zip_entries(*old(archive)),
        zip_unreadable(*final(archive)) == zip_unreadable(*old(archive)),
        zip_unreadable(*old(archive)).contains("_rels/.rels"@) ==> r is Err,
        !zip_unreadable(*old(archive)).contains("_rels/.rels"@) && zip_entries(*old(archive)).contains_key("_rels/.rels"@) ==> r is Ok,
        r is Ok ==> zip_entries(*old(archive)).contains_key("_rels/.rels"@) && r->Ok_0@ == zip_entries(*old(archive))["_rels/.rels"@],
        !zip_entries(*old(archive)).contains_key("_rels/.rels"@) ==> r is Err
            && is_parse_error(r->Err_0, "missing _rels/.rels"@),
{
    match read_optional_entry(archive, "_rels/.rels")? {
        Some(b) => Ok(b),
        None => Err(parse_error(String::from_str("missing _rels/.rels"))),
    }
}

/// The styles, hyperlinks and images of a package.
pub type StylesLinksImages = (Seq<crate::styles::StyleView>, Map<Seq<char>, Seq<char>>, Map<Seq<char>, (Seq<char>, bool)>);

/// What loading the styles, hyperlinks and images of the document at `doc`
/// gives, from the package's entries `ent` of which those in `bad` fail to
/// read: none when a part read fails; else the parts' contents or the
/// message of the first parse error. Without the document's relationships
/// part, or without a styles relationship or part, there are no styles.
pub open spec fn spec_load_styles(ent: Map<Seq<char>, Seq<u8>>, bad: Set<Seq<char>>, doc: Seq<char>) -> Option<Result<StylesLinksImages, Seq<char>>> {
    let rp = spec_derive_part_rels_path(doc);
    if bad.contains(rp) {
        None
    } else if !ent.contains_key(rp) {
        Some(Ok((Seq::empty(), Map::empty(), Map::empty())))
    } else {
        let t = xml_tokens(ent[rp], true);
        match spec_hyperlinks(t) {
            Err(m) => Some(Err(m)),
            Ok(h) => match spec_images(t, doc) {
                Err(m) => Some(Err(m)),
                Ok(i) => match spec_target_search(RelQuery::Styles, t) {
                    Err(m) => Some(Err(m)),
                    Ok(None) => Some(Ok((Seq::empty(), h, i))),
                    Ok(Some(st)) => {
                        let sp = spec_resolve_relative_target(doc, st);
                        if bad.contains(sp) {
                            None
                        } else if !ent.contains_key(sp) {
                            Some(Ok((Seq::empty(), h, i)))
                        } else {
                            match spec_parse_styles(xml_tokens(ent[sp], true)) {
                                Ok(sv) => Some(Ok((sv, h, i))),
                                Err(m) => Some(Err(m)),
                            }
                        }
                    },
                },
            },
        }
    }
}

/// What loading the numbering of the document at `doc` gives, as
/// [`spec_load_styles`] does for styles: no numbering without the
/// relationships part, a numbering relationship or the numbering part.
pub open spec fn spec_load_numbering(ent: Map<Seq<char>, Seq<u8>>, bad: Set<Seq<char>>, doc: Seq<char>) -> Option<Result<crate::numbering::NumberingView, Seq<char>>> {
    let rp = spec_derive_part_rels_path(doc);
    let none = crate::numbering::NumberingView { levels: Map::empty(), nums: Map::empty() };
    if bad.contains(rp) {
        None
    } else if !ent.contains_key(rp) {
        Some(Ok(none))
    } else {
        match spec_target_search(RelQuery::Numbering, xml_tokens(ent[rp], true)) {
            Err(m) => Some(Err(m)),
            Ok(None) => Some(Ok(none)),
            Ok(Some(t)) => {
                let np = spec_resolve_relative_target(doc, t);
                if bad.contains(np) {
                    None
                } else if !ent.contains_key(np) {
                    Some(Ok(none))
                } else {
                    match spec_parse_numbering(xml_tokens(ent[np], true)) {
                        Ok(v) => Some(Ok(v)),
                        Err(m) => Some(Err(m)),
                    }
                }
            },
        }
    }
}

/// What reading `[Content_Types].xml` gives: an empty table when the part
/// is absent or empty.
pub open spec fn spec_load_content_types(ent: Map<Seq<char>, Seq<u8>>, bad: Set<Seq<char>>) -> Option<Result<crate::content_types::ContentTypesView, Seq<char>>> {
    let cp = "[Content_Types].xml"@;
    let empty = crate::content_types::ContentTypesView { defaults: Map::empty(), overrides: Map::empty() };
    if bad.contains(cp) {
        None
    } else if !ent.contains_key(cp) || ent[cp].len() == 0 {
        Some(Ok(empty))
    } else {
        match crate::content_types::spec_parse_content_types(xml_tokens(ent[cp], true)) {
            Ok(v) => Some(Ok(v)),
            Err(m) => Some(Err(m)),
        }
    }
}

/// The plain content of an opened package.
pub struct PackageView {
    pub document_path: Seq<char>,
    pub styles: Seq<crate::styles::StyleView>,
    pub hyperlinks: Map<Seq<char>, Seq<char>>,
    pub images: Map<Seq<char>, (Seq<char>, bool)>,
    pub numbering: crate::numbering::NumberingView,
    pub content_types: crate::content_types::ContentTypesView,
    pub document_xml: Seq<u8>,
}

/// What opening a package with entries `ent`, of which those in `bad` fail
/// to read, gives: none when a part read fails; else the package or the
/// message of the first error.
pub open spec fn spec_open_package(ent: Map<Seq<char>, Seq<u8>>, bad: Set<Seq<char>>) -> Option<Result<PackageView, Seq<char>>> {
    let root = "_rels/.rels"@;
    if bad.contains(root) {
        None
    } else if !ent.contains_key(root) {
        Some(Err("missing _rels/.rels"@))
    } else {
        match spec_target_search(RelQuery::OfficeDocument, xml_tokens(ent[root], true)) {
            Err(m) => Some(Err(m)),
            Ok(None) => Some(Err("no officeDocument relationship"@)),
            Ok(Some(doc)) => match spec_load_styles(ent, bad, doc) {
                None => None,
                Some(Err(m)) => Some(Err(m)),
                Some(Ok((sv, h, i))) => match spec_load_numbering(ent, bad, doc) {
                    None => None,
                    Some(Err(m)) => Some(Err(m)),
                    Some(Ok(n)) => match spec_load_content_types(ent, bad) {
                        None => None,
                        Some(Err(m)) => Some(Err(m)),
                        Some(Ok(ct)) => if bad.contains(doc) {
                            None
                        } else if !ent.contains_key(doc) {
                            Some(Err("document target not found: "@ + doc))
                        } else {
                            Some(Ok(PackageView {
                                document_path: doc,
                                styles: sv,
                                hyperlinks: h,
                                images: i,
                                numbering: n,
                                content_types: ct,
                                document_xml: ent[doc],
                            }))
                        },
                    },
                },
            },
        }
    }
}

/// Loads the styles, hyperlinks and images named by the main document's
/// relationships; a document without relationships has none of them, and
/// one whose styles part is missing has no styles.
pub fn load_style_list_and_hyperlink_map(archive: &mut zip::ZipArchive<std::io::Cursor<Vec<u8>>>, document_path: &str) -> (r: Result<(StyleList, HyperlinkMap, ImageMap), DocxError>)
    ensures
        zip_entries(*final(archive)) == zip_entries(*old(archive)),
        zip_unreadable(*final(archive)) == zip_unreadable(*old(archive)),
        match spec_load_styles(zip_entries(*old(archive)), zip_unreadable(*old(archive)), document_path@) {
            None => r is Err,
            Some(Ok((sv, h, i))) => r matches Ok((a, b, c)) && a@ == sv && b@ == h && c@ == i,
            Some(Err(m)) => r is Err && is_parse_error(r->Err_0, m),
        },
{
    let doc_rels_path = derive_part_rels_path(document_path);
    let doc_rels_bytes = match read_optional_entry(archive, doc_rels_path.as_str())? {
        Some(b) => b,
        None => {
            let empty: Vec<crate::styles::Style> = Vec::new();
            assert(empty@.map_values(|s: crate::styles::Style| s@) =~= Seq::<crate::styles::StyleView>::empty());
            return Ok((StyleList::from_styles(empty), HyperlinkMap::new(), ImageMap::new()));
        },
    };
    let hyperlink_map = collect_hyperlink_map(doc_rels_bytes.as_slice())?;
    let image_map = collect_image_map(doc_rels_bytes.as_slice(), document_path)?;
    let styles_target = match find_styles_target(doc_rels_bytes.as_slice())? {
        Some(t) => t,
        None => {
            let empty: Vec<crate::styles::Style> = Vec::new();
            assert(empty@.map_values(|s: crate::styles::Style| s@) =~= Seq::<crate::styles::StyleView>::empty());
            return Ok((StyleList::from_styles(empty), hyperlink_map, image_map));
        },
    };
    let styles_path = resolve_relative_target(document_path, styles_target.as_str());
    let styles_bytes = match read_optional_entry(archive, styles_path.as_str())? {
        Some(b) => b,
        None => {
            let empty: Vec<crate::styles::Style> = Vec::new();
            assert(empty@.map_values(|s: crate::styles::Style| s@) =~= Seq::<crate::styles::StyleView>::empty());
            return Ok((StyleList::from_styles(empty), hyperlink_map, image_map));
        },
    };
    let style_list = StyleList::parse(styles_bytes)?;
    Ok((style_list, hyperlink_map, image_map))
}

/// Loads the numbering named by the main document's relationships; without
/// relationships, a numbering relationship or the numbering part there is
/// no numbering.
fn load_numbering(archive: &mut zip::ZipArchive<std::io::Cursor<Vec<u8>>>, document_path: &str) -> (r: Result<MinimalNumbering, DocxError>)
    ensures
        zip_entries(*final(archive)) == zip_entries(*old(archive)),
        zip_unreadable(*final(archive)) == zip_unreadable(*old(archive)),
        match spec_load_numbering(zip_entries(*old(archive)), zip_unreadable(*old(archive)), document_path@) {
            None => r is Err,
            Some(Ok(v)) => r matches Ok(n) && n@ == v,
            Some(Err(m)) => r is Err && is_parse_error(r->Err_0, m),
        },
{
    let doc_rels_path = derive_part_rels_path(document_path);
    let doc_rels_bytes = match read_optional_entry(archive, doc_rels_path.as_str())? {
        Some(b) => b,
        None => {
            return Ok(MinimalNumbering::new());
        },
    };
    let numbering_target = match find_numbering_target(doc_rels_bytes.as_slice())? {
        Some(t) => t,
        None => {
            return Ok(MinimalNumbering::new());
        },
    };
    let numbering_path = resolve_relative_target(document_path, numbering_target.as_str());
    let numbering_bytes = match read_optional_entry(archive, numbering_path.as_str())? {
        Some(b) => b,
        None => {
            return Ok(MinimalNumbering::new());
        },
    };
    parse_numbering(numbering_bytes)
}

/// Opens a DOCX package: finds the main document through `_rels/.rels`,
/// loads its styles, numbering, hyperlinks and images, reads
/// `[Content_Types].xml` (an empty table when absent) and the main document
/// part.
pub fn open_package(bytes: Vec<u8>) -> (r: Result<DocxPackage, DocxError>)
    ensures
        zip_opened(bytes@) is None ==> r is Err,
        zip_opened(bytes@) matches Some(ent) && !ent.contains_key("_rels/.rels"@) ==> r is Err
            && is_parse_error(r->Err_0, "missing _rels/.rels"@),
        r matches Ok(p) ==> zip_opened(bytes@) == Some(p.entries()),
        zip_opened(bytes@) matches Some(ent) ==> match spec_open_package(ent, zip_unreadable_in(bytes@)) {
            None => r is Err,
            Some(Err(m)) => r is Err && is_parse_error(r->Err_0, m),
            Some(Ok(v)) => r matches Ok(p) && p.document_path@ == v.document_path && p.style_list@ == v.styles
                && p.hyperlink_map@ == v.hyperlinks && p.image_map@ == v.images && p.numbering@ == v.numbering
                && p.content_types@ == v.content_types && p.document_xml@ == v.document_xml,
        },
{
    let mut archive = match zip_open(bytes) {
        Ok(a) => a,
        Err(f) => {
            return Err(open_fault_error(f));
        },
    };
    let rels_bytes = read_root_rels_bytes(&mut archive)?;
    let document_path = find_document_target(rels_bytes.as_slice())?;
    let (style_list, hyperlink_map, image_map) = load_style_list_and_hyperlink_map(&mut archive, document_path.as_str())?;
    let numbering = load_numbering(&mut archive, document_path.as_str())?;
    let content_types = match read_optional_entry(&mut archive, "[Content_Types].xml")? {
        Some(b) => content_types::parse(b.as_slice())?,
        None => ContentTypes::new(),
    };
    let document_xml = match zip_read(&mut archive, document_path.as_str()) {
        Ok(Some(b)) => b,
        Ok(None) => {
            return Err(parse_error(concat_str("document target not found: ", document_path.as_str())));
        },
        Err(ZipReadFault::Lookup(_)) => {
            return Err(parse_error(concat_str("document target not found: ", document_path.as_str())));
        },
        Err(ZipReadFault::Io(m)) => {
            return Err(DocxError::Io { message: m });
        },
    };
    Ok(DocxPackage { style_list, numbering, hyperlink_map, image_map, content_types, document_path, document_xml, archive })
}

/// A DOCX reader: the events of the main document of a package.
pub struct DocxReader {
    inner: DocumentReader,
}

impl DocxReader {
    pub closed spec fn wf(&self) -> bool {
        self.inner.wf()
    }

    /// The events parsed but not yet returned.
    pub closed spec fn queued(&self) -> Seq<EventView> {
        self.inner.queued()
    }

    /// The reader's phase.
    pub closed spec fn phase(&self) -> Phase {
        self.inner.phase()
    }

    /// Whether an error waits behind the queued events.
    pub closed spec fn has_pending_error(&self) -> bool {
        self.inner.has_pending_error()
    }

    /// The tokens of the main document part.
    pub closed spec fn tokens(&self) -> Seq<XmlToken> {
        self.inner.tokens()
    }

    /// How many tokens have been read.
    pub closed spec fn position(&self) -> int {
        self.inner.position()
    }

    /// The styles the reader classifies with.
    pub closed spec fn styles(&self) -> Seq<crate::styles::StyleView> {
        self.inner.styles()
    }

    /// The events handed out so far, in order.
    pub closed spec fn returned(&self) -> Seq<EventView> {
        self.inner.returned()
    }

    /// Whether no reading error has come up.
    pub closed spec fn error_free(&self) -> bool {
        self.inner.error_free()
    }

    /// Opens a DOCX package held in memory; nothing of the document is
    /// returned yet.
    pub fn from_bytes(bytes: Vec<u8>) -> (r: Result<DocxReader, DocxError>)
        ensures
            zip_opened(bytes@) is None ==> r is Err,
            zip_opened(bytes@) matches Some(ent) && !ent.contains_key("_rels/.rels"@) ==> r is Err
                && is_parse_error(r->Err_0, "missing _rels/.rels"@),
            r matches Ok(d) ==> d.wf() && d.queued().len() == 0 && d.phase() == Phase::NotStarted && !d.has_pending_error()
                && d.position() == 0 && d.returned() == Seq::<EventView>::empty() && d.error_free(),
            zip_opened(bytes@) matches Some(ent) ==> match spec_open_package(ent, zip_unreadable_in(bytes@)) {
                None => r is Err,
                Some(Err(m)) => r is Err && is_parse_error(r->Err_0, m),
                Some(Ok(v)) => r matches Ok(d) && d.tokens() == xml_tokens(v.document_xml, false) && d.styles() == v.styles,
            },
    {
        let p = open_package(bytes)?;
        let data = DocxData { style_list: p.style_list, hyperlink_map: p.hyperlink_map, numbering: p.numbering, image_map: p.image_map };
        let d = DocxReader { inner: DocumentReader::from_xml(p.document_xml, data) };
        Ok(d)
    }

    /// The next event of the document, as [`DocumentReader::next_event`]
    /// returns it.
    pub fn next_event(&mut self) -> (r: Result<Option<Event>, DocxError>)
        requires
            old(self).wf(),
        ensures
            final(self).wf(),
            old(self).queued().len() > 0 ==> (r matches Ok(Some(e)) && e@ == old(self).queued()[0]
                && final(self).queued() == old(self).queued().drop_first()),
            old(self).queued().len() == 0 && old(self).has_pending_error() ==> r is Err && !final(self).has_pending_error(),
            old(self).queued().len() == 0 && !old(self).has_pending_error() && old(self).phase() == Phase::NotStarted
                ==> (r matches Ok(Some(e)) && e@ == (EventView::StartDocument { id: None, language: None, metadata: None })
                    && final(self).phase() == Phase::Running),
            old(self).queued().len() == 0 && !old(self).has_pending_error() && old(self).phase() == Phase::Finished
                ==> (r matches Ok(None) && final(self).queued().len() == 0 && final(self).phase() == Phase::Finished
                    && !final(self).has_pending_error()),
            r matches Ok(Some(e)) ==> crate::document::cell_span_clear(e@),
            r is Err ==> r->Err_0 is Parse,
            r matches Ok(None) ==> final(self).phase() == Phase::Finished && final(self).queued().len() == 0
                && !final(self).has_pending_error(),
            old(self).phase() == Phase::Finished ==> final(self).phase() == Phase::Finished,
            final(self).tokens() == old(self).tokens(),
            final(self).styles() == old(self).styles(),
            old(self).phase() == Phase::Running && old(self).queued().len() == 0 && !old(self).has_pending_error()
                && spec_body_sound(old(self).styles(), old(self).tokens(), old(self).position()) ==> r is Ok
                && !final(self).has_pending_error()
                && (final(self).phase() == Phase::Finished
                    || spec_body_sound(final(self).styles(), final(self).tokens(), final(self).position()))
                && (old(self).error_free() ==> final(self).error_free()),
            final(self).returned() == old(self).returned() + match r {
                Ok(Some(e)) => seq![e@],
                _ => Seq::<EventView>::empty(),
            },
            final(self).error_free() ==> old(self).error_free()
                && table_nested(final(self).returned() + final(self).queued()),
            r matches Ok(None) && final(self).error_free() ==> table_nested(final(self).returned()),
            (old(self).returned() + old(self).queued()).is_prefix_of(final(self).returned() + final(self).queued()),
            r is Err ==> old(self).queued().len() == 0 && final(self).queued().len() == 0,
    {
        self.inner.next_event()
    }
}

/// An embedded asset of a package, named by its asset id
/// (`zip://<part path>` for parts of the package).
#[derive(Debug, Clone, PartialEq, Eq)]
pub struct DocxAssetHandle {
    asset_id: String,
}

/// The part path an asset id names: what follows `zip://`.
pub open spec fn asset_part(asset_id: Seq<char>) -> Option<Seq<char>> {
    let p = "zip://"@;
    if asset_id.len() >= p.len() && asset_id.subrange(0, p.len() as int) == p {
        Some(asset_id.subrange(p.len() as int, asset_id.len() as int))
    } else {
        None
    }
}

fn strip_zip_prefix(asset_id: &str) -> (r: Option<String>)
    ensures
        match asset_part(asset_id@) {
            Some(p) => r is Some && r->0@ == p,
            None => r is None,
        },
{
    let v = chars_of(asset_id);
    let p = chars_of("zip://");
    if v.len() < p.len() {
        return None;
    }
    let mut i: usize = 0;
    while i < p.len()
        invariant
            p@ == "zip://"@,
            p@.len() <= v@.len(),
            v@ == asset_id@,
            i <= p@.len(),
            forall|j: int| 0 <= j < i ==> v@[j] == p@[j],
        decreases p@.len() - i,
    {
        if v[i] != p[i] {
            assert(v@.subrange(0, p@.len() as int)[i as int] != p@[i as int]);
            return None;
        }
        i = i + 1;
    }
    assert(v@.subrange(0, p@.len() as int) =~= p@);
    Some(crate::text::string_from(v.as_slice(), p.len()))
}

impl DocxAssetHandle {
    pub fn new(asset_id: String) -> (h: DocxAssetHandle)
        ensures
            h.id() == asset_id@,
    {
        DocxAssetHandle { asset_id }
    }

    pub closed spec fn id(&self) -> Seq<char> {
        self.asset_id@
    }

    pub fn asset_id(&self) -> (r: &str)
        ensures
            r@ == self.id(),
    {
        self.asset_id.as_str()
    }

    /// The MIME type of the asset, from the package's content types; none for
    /// an asset id that does not name a part.
    pub fn content_type<'a>(&self, ct: &'a ContentTypes) -> (r: Option<&'a str>)
        ensures
            match asset_part(self.id()) {
                Some(p) => match content_types::spec_lookup(ct@, p) {
                    Some(x) => r is Some && r->0@ == x,
                    None => r is None,
                },
                None => r is None,
            },
    {
        match strip_zip_prefix(self.asset_id.as_str()) {
            Some(p) => ct.lookup(p.as_str()),
            None => None,
        }
    }

    /// The bytes of the asset: an error for an asset id that does not name a
    /// part or for a part the package does not hold.
    pub fn read(&self, package: &mut DocxPackage) -> (r: Result<Vec<u8>, DocxError>)
        ensures
            final(package).entries() == old(package).entries(),
            r is Ok ==> asset_part(self.id()) is Some && old(package).entries().contains_key(asset_part(self.id())->0)
                && r->Ok_0@ == old(package).entries()[asset_part(self.id())->0],
            asset_part(self.id()) is None ==> (r matches Err(DocxError::Io { message })
                && message@ == "not a zip:// asset_id: "@ + self.id()),
            asset_part(self.id()) matches Some(p) ==> (!old(package).entries().contains_key(p)
                ==> (r matches Err(DocxError::Io { message }) && message@ == "asset not found in package: "@ + p)),
    {
        let path = match strip_zip_prefix(self.asset_id.as_str()) {
            Some(p) => p,
            None => {
                return Err(DocxError::Io { message: concat_str("not a zip:// asset_id: ", self.asset_id.as_str()) });
            },
        };
        match package.read_entry(path.as_str())? {
            Some(b) => Ok(b),
            None => Err(DocxError::Io { message: concat_str("asset not found in package: ", path.as_str()) }),
        }
    }
}

} // verus!

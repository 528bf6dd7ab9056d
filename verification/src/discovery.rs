//! Discovery of the main document part from the package relationships
//! (`_rels/.rels`), with element names resolved against their namespaces.

use vstd::prelude::*;

use crate::events::{is_parse_error, parse_error, DocxError};
use crate::oox::{OFFICE_DOC_REL_STRICT, OFFICE_DOC_REL_TRANSITIONAL, PACKAGE_RELS_PATH, RELATIONSHIPS_NS};
use crate::package::{zip_entries, zip_read, zip_unreadable, ZipReadFault};
use crate::paths::{normalize_part_path, part_path_message, spec_part_path_rejection, without_leading_slash};
use crate::text::{concat_str, str_eq};
use crate::xml::{is_final, local_is, local_name, owned_event, token_of, RawXmlEvent, XmlAttr, XmlTag, XmlToken};

verus! {

#[verifier::external_type_specification]
#[verifier::external_body]
#[verifier::reject_recursive_types(R)]
pub struct ExNsReader<R>(quick_xml::reader::NsReader<R>);

/// A token together with the namespace its element name is bound to.
#[derive(Debug, Clone, PartialEq, Eq)]
pub struct NsToken {
    /// For a start, empty or end tag, the namespace its name resolves to;
    /// none when the name is unbound, its prefix is unknown, or the token is
    /// no tag.
    pub ns: Option<String>,
    pub tok: XmlToken,
}

/// The tokens, each with the namespace of its name, that a
/// namespace-resolving `quick-xml` reader over `bytes` yields, in order,
/// through its first end of input or failure.
pub uninterp spec fn ns_tokens(bytes: Seq<u8>) -> Seq<NsToken>;

/// The namespace-resolved tokens a reader has still to yield, through its
/// first end of input or failure.
pub uninterp spec fn ns_pending(r: quick_xml::reader::NsReader<std::io::Cursor<Vec<u8>>>) -> Seq<NsToken>;

/// Creates a namespace-resolving `quick-xml` reader over `bytes`.
///
/// Trusted: wraps `quick_xml::reader::NsReader::from_reader`. The contract
/// claims that the reader has all the tokens of `bytes` still to yield, and
/// that they end with an end of input or a failure: the reader works over
/// the bytes alone and every event but the end consumes input.
#[verifier::external_body]
fn ns_reader(bytes: Vec<u8>) -> (r: quick_xml::reader::NsReader<std::io::Cursor<Vec<u8>>>)
    ensures
        ns_pending(r) == ns_tokens(bytes@),
        ns_well_terminated(ns_pending(r)),
{
    quick_xml::reader::NsReader::from_reader(std::io::Cursor::new(bytes))
}

/// Reads the next token with the namespace of its name.
///
/// Trusted: wraps `NsReader::read_resolved_event_into`; a `Bound` namespace
/// is returned as its text, `Unbound` and `Unknown` as none, and the event
/// is converted with [`owned_event`] and [`token_of`]. The contract claims
/// that the token is the next one the reader had to yield, and that the
/// reader then has the rest to yield.
#[verifier::external_body]
fn ns_next(reader: &mut quick_xml::reader::NsReader<std::io::Cursor<Vec<u8>>>) -> (t: NsToken)
    ensures
        ns_pending(*old(reader)).len() > 0 ==> t == ns_pending(*old(reader))[0]
            && ns_pending(*final(reader)) == ns_pending(*old(reader)).drop_first(),
{
    let mut buf = Vec::new();
    match reader.read_resolved_event_into(&mut buf) {
        Ok((quick_xml::name::ResolveResult::Bound(n), ev)) => NsToken { ns: Some(n.0.to_string()), tok: token_of(owned_event(ev)) },
        Ok((_, ev)) => NsToken { ns: None, tok: token_of(owned_event(ev)) },
        Err(e) => NsToken { ns: None, tok: token_of(RawXmlEvent::Failed(e)) },
    }
}

/// A namespace-resolved token sequence as the tokenizer produces it:
/// non-empty, and ending with its only `Eof` or `Malformed` token.
pub open spec fn ns_well_terminated(toks: Seq<NsToken>) -> bool {
    &&& toks.len() > 0
    &&& is_final(toks.last().tok)
    &&& forall|i: int| 0 <= i < toks.len() - 1 ==> !is_final(#[trigger] toks[i].tok)
}

/// Reads all tokens of an XML part, each with the namespace of its name.
pub fn tokenize_xml_ns(bytes: Vec<u8>) -> (toks: Vec<NsToken>)
    ensures
        toks@ == ns_tokens(bytes@),
        ns_well_terminated(toks@),
{
    let ghost all = ns_tokens(bytes@);
    let mut reader = ns_reader(bytes);
    let mut toks: Vec<NsToken> = Vec::new();
    loop
        invariant
            toks@ + ns_pending(reader) == all,
            all == ns_tokens(bytes@),
            ns_well_terminated(all),
            ns_well_terminated(ns_pending(reader)),
            forall|i: int| 0 <= i < toks@.len() ==> !is_final(#[trigger] toks@[i].tok),
        decreases ns_pending(reader).len(),
    {
        let ghost pending = ns_pending(reader);
        let t = ns_next(&mut reader);
        let done = matches!(t.tok, XmlToken::Eof | XmlToken::Malformed(_));
        let ghost before = toks@;
        toks.push(t);
        proof {
            assert(toks@ + ns_pending(reader) =~= before + pending);
        }
        if done {
            proof {
                assert(pending.len() == 1) by {
                    if pending.len() > 1 {
                        assert(!is_final(pending[0].tok));
                    }
                }
                assert(toks@ =~= all);
            }
            return toks;
        }
    }
}

/// The `Type` and `Target` of a `Relationship` element, read from its
/// attributes in order (the last occurrence of each wins, by exact key), or
/// the message of the first attribute error.
pub open spec fn spec_type_and_target(attrs: Seq<Result<XmlAttr, String>>) -> Result<(Option<Seq<char>>, Option<Seq<char>>), Seq<char>>
    decreases attrs.len(),
{
    if attrs.len() == 0 {
        Ok((None, None))
    } else {
        match spec_type_and_target(attrs.drop_last()) {
            Err(m) => Err(m),
            Ok((ty, tg)) => match attrs.last() {
                Err(m) => Err(m@),
                Ok(a) => if a.key@ == "Type"@ {
                    Ok((Some(a.value@), tg))
                } else if a.key@ == "Target"@ {
                    Ok((ty, Some(a.value@)))
                } else {
                    Ok((ty, tg))
                },
            },
        }
    }
}

/// Whether `t` is the transitional or the strict office document
/// relationship type.
pub open spec fn is_office_rel_type(t: Seq<char>) -> bool {
    t == OFFICE_DOC_REL_TRANSITIONAL@ || t == OFFICE_DOC_REL_STRICT@
}

/// What [`normalize_part_path`] gives for a target: the path, or the
/// message of its rejection.
pub open spec fn spec_normalized_part(target: Seq<char>) -> Result<Seq<char>, Seq<char>> {
    match spec_part_path_rejection(target) {
        None => Ok(without_leading_slash(target)),
        Some(reason) => Err(part_path_message(reason, target)),
    }
}

/// What a `Relationship` element decides: nothing (the search goes on), or
/// the search's result.
pub open spec fn relationship_outcome(tag: XmlTag) -> Option<Result<Seq<char>, Seq<char>>> {
    match spec_type_and_target(tag.checked_attrs@) {
        Err(m) => Some(Err("attribute error in _rels/.rels: "@ + m)),
        Ok((Some(ty), Some(tg))) => if is_office_rel_type(ty) { Some(spec_normalized_part(tg)) } else { None },
        Ok(_) => None,
    }
}

/// Whether a tag is a `Relationship` element in the OPC relationships
/// namespace.
pub open spec fn is_relationship_element(ns: Option<String>, name: Seq<char>) -> bool {
    &&& ns matches Some(n) && n@ == RELATIONSHIPS_NS@
    &&& local_name(name) == "Relationship"@
}

/// What one token of `_rels/.rels` decides: nothing, or the search's result.
pub open spec fn discovery_outcome(t: NsToken) -> Option<Result<Seq<char>, Seq<char>>> {
    match t.tok {
        XmlToken::Start(tag) => if is_relationship_element(t.ns, tag.name@) { relationship_outcome(tag) } else { None },
        XmlToken::Empty(tag) => if is_relationship_element(t.ns, tag.name@) { relationship_outcome(tag) } else { None },
        XmlToken::Malformed(m) => Some(Err("XML parse error in _rels/.rels: "@ + m@)),
        XmlToken::Eof => Some(Err("no Main Document relationship found"@)),
        _ => None,
    }
}

/// The result of the search over a token sequence: the first token that
/// decides it.
pub open spec fn spec_discover(toks: Seq<NsToken>) -> Result<Seq<char>, Seq<char>>
    decreases toks.len(),
{
    if toks.len() == 0 {
        Err("no Main Document relationship found"@)
    } else {
        match discovery_outcome(toks[0]) {
            Some(r) => r,
            None => spec_discover(toks.drop_first()),
        }
    }
}

fn type_and_target(tag: &XmlTag) -> (r: Result<(Option<String>, Option<String>), String>)
    ensures
        match spec_type_and_target(tag.checked_attrs@) {
            Ok((ty, tg)) => r matches Ok((a, b))
                && (a matches Some(x) ==> ty == Some(x@)) && (a is None ==> ty is None)
                && (b matches Some(x) ==> tg == Some(x@)) && (b is None ==> tg is None),
            Err(m) => r matches Err(e) && e@ == m,
        },
{
    let attrs = &tag.checked_attrs;
    let mut ty: Option<String> = None;
    let mut tg: Option<String> = None;
    let mut i: usize = 0;
    while i < attrs.len()
        invariant
            attrs@ == tag.checked_attrs@,
            i <= attrs@.len(),
            spec_type_and_target(attrs@.take(i as int)) matches Ok((sty, stg))
                && (ty matches Some(x) ==> sty == Some(x@)) && (ty is None ==> sty is None)
                && (tg matches Some(x) ==> stg == Some(x@)) && (tg is None ==> stg is None),
        decreases attrs@.len() - i,
    {
        assert(attrs@.take(i + 1).drop_last() =~= attrs@.take(i as int));
        match &attrs[i] {
            Err(m) => {
                proof { lemma_type_and_target_err(attrs@, i as int); }
                return Err(m.clone());
            },
            Ok(a) => {
                if str_eq(a.key.as_str(), "Type") {
                    ty = Some(a.value.clone());
                } else if str_eq(a.key.as_str(), "Target") {
                    tg = Some(a.value.clone());
                }
            },
        }
        i = i + 1;
    }
    assert(attrs@.take(attrs@.len() as int) =~= attrs@);
    Ok((ty, tg))
}

/// An attribute error ends the reading of the attributes: whatever follows
/// it, the result is its message.
proof fn lemma_type_and_target_err(attrs: Seq<Result<XmlAttr, String>>, i: int)
    requires
        0 <= i < attrs.len(),
        attrs[i] is Err,
        spec_type_and_target(attrs.take(i)) is Ok,
    ensures
        spec_type_and_target(attrs) == Err::<(Option<Seq<char>>, Option<Seq<char>>), Seq<char>>(attrs[i]->Err_0@),
    decreases attrs.len() - i,
{
    if attrs.len() == i + 1 {
        assert(attrs.drop_last() =~= attrs.take(i));
    } else {
        assert(attrs.drop_last().take(i) =~= attrs.take(i));
        lemma_type_and_target_err(attrs.drop_last(), i);
        assert(attrs.drop_last()[i] == attrs[i]);
    }
}

fn is_office_rel_str(t: &str) -> (r: bool)
    ensures
        r == is_office_rel_type(t@),
{
    str_eq(t, OFFICE_DOC_REL_TRANSITIONAL) || str_eq(t, OFFICE_DOC_REL_STRICT)
}

fn is_relationship_tag(ns: &Option<String>, tag: &XmlTag) -> (r: bool)
    ensures
        r == is_relationship_element(*ns, tag.name@),
{
    match ns {
        Some(n) => str_eq(n.as_str(), RELATIONSHIPS_NS) && local_is(tag.name.as_str(), "Relationship"),
        None => false,
    }
}

fn on_relationship(tag: &XmlTag) -> (r: Option<Result<String, DocxError>>)
    ensures
        match relationship_outcome(*tag) {
            None => r is None,
            Some(Ok(p)) => r matches Some(Ok(s)) && s@ == p,
            Some(Err(m)) => r matches Some(Err(e)) && is_parse_error(e, m),
        },
{
    match type_and_target(tag) {
        Err(m) => Some(Err(parse_error(concat_str("attribute error in _rels/.rels: ", m.as_str())))),
        Ok((Some(ty), Some(tg))) => {
            if is_office_rel_str(ty.as_str()) {
                Some(normalize_part_path(tg.as_str()))
            } else {
                None
            }
        },
        Ok(_) => None,
    }
}

fn token_outcome(t: &NsToken) -> (r: Option<Result<String, DocxError>>)
    ensures
        match discovery_outcome(*t) {
            None => r is None,
            Some(Ok(p)) => r matches Some(Ok(s)) && s@ == p,
            Some(Err(m)) => r matches Some(Err(e)) && is_parse_error(e, m),
        },
{
    match &t.tok {
        XmlToken::Start(tag) => if is_relationship_tag(&t.ns, tag) { on_relationship(tag) } else { None },
        XmlToken::Empty(tag) => if is_relationship_tag(&t.ns, tag) { on_relationship(tag) } else { None },
        XmlToken::Malformed(m) => Some(Err(parse_error(concat_str("XML parse error in _rels/.rels: ", m.as_str())))),
        XmlToken::Eof => Some(Err(parse_error(String::from_str("no Main Document relationship found")))),
        _ => None,
    }
}

/// The main document part named by the tokens of `_rels/.rels`: the first
/// `Relationship` element of the relationships namespace whose `Type` is the
/// transitional or strict office document type and that has a `Target`
/// decides it, with the target normalized by [`normalize_part_path`]. An
/// attribute error in such an element, a reader error, and the end of input
/// before any of these are errors.
pub fn discover_in_tokens(toks: &Vec<NsToken>) -> (r: Result<String, DocxError>)
    ensures
        match spec_discover(toks@) {
            Ok(p) => r is Ok && r->Ok_0@ == p,
            Err(m) => r is Err && is_parse_error(r->Err_0, m),
        },
{
    let mut i: usize = 0;
    assert(toks@.skip(0) =~= toks@);
    while i < toks.len()
        invariant
            i <= toks@.len(),
            spec_discover(toks@) == spec_discover(toks@.skip(i as int)),
        decreases toks@.len() - i,
    {
        assert(toks@.skip(i as int)[0] == toks@[i as int]);
        assert(toks@.skip(i as int).drop_first() =~= toks@.skip(i + 1));
        match token_outcome(&toks[i]) {
            Some(r) => {
                return r;
            },
            None => {},
        }
        i = i + 1;
    }
    assert(toks@.skip(i as int).len() == 0);
    Err(parse_error(String::from_str("no Main Document relationship found")))
}

/// Finds the main document part of a package: reads `_rels/.rels` from the
/// archive and searches it as [`discover_in_tokens`] does. A package without
/// `_rels/.rels`, or whose `_rels/.rels` cannot be found by name, is a parse
/// error; one whose `_rels/.rels` fails to read, an I/O error.
pub fn discover_main_part(archive: &mut zip::ZipArchive<std::io::Cursor<Vec<u8>>>) -> (r: Result<String, DocxError>)
    ensures
        zip_entries(*final(archive)) == zip_entries(*old(archive)),
        !zip_entries(*old(archive)).contains_key(PACKAGE_RELS_PATH@) ==> r is Err
            && is_parse_error(r->Err_0, "package missing _rels/.rels"@),
        r is Ok ==> zip_entries(*old(archive)).contains_key(PACKAGE_RELS_PATH@),
        zip_unreadable(*final(archive)) == zip_unreadable(*old(archive)),
        zip_unreadable(*old(archive)).contains(PACKAGE_RELS_PATH@) ==> r is Err,
        zip_entries(*old(archive)).contains_key(PACKAGE_RELS_PATH@) && !zip_unreadable(*old(archive)).contains(PACKAGE_RELS_PATH@)
            ==> match spec_discover(ns_tokens(zip_entries(*old(archive))[PACKAGE_RELS_PATH@])) {
                Ok(p) => r is Ok && r->Ok_0@ == p,
                Err(m) => r is Err && is_parse_error(r->Err_0, m),
            },
{
    match zip_read(archive, PACKAGE_RELS_PATH) {
        Ok(Some(bytes)) => {
            let toks = tokenize_xml_ns(bytes);
            discover_in_tokens(&toks)
        },
        Ok(None) => Err(parse_error(String::from_str("package missing _rels/.rels"))),
        Err(ZipReadFault::Lookup(_)) => Err(parse_error(String::from_str("package missing _rels/.rels"))),
        Err(ZipReadFault::Io(m)) => Err(DocxError::Io { message: m }),
    }
}

} // verus!

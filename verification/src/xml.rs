//! The XML token layer: a part's bytes are read with `quick-xml` into a
//! sequence of plain tokens, which the part parsers then consume.

use vstd::prelude::*;

use crate::text::{chars_of, str_eq};

use quick_xml::events::Event as QxEvent;

verus! {

#[verifier::external_type_specification]
#[verifier::external_body]
#[verifier::reject_recursive_types(R)]
pub struct ExXmlReader<R>(quick_xml::Reader<R>);

#[verifier::external_type_specification]
#[verifier::external_body]
#[verifier::reject_recursive_types(T)]
pub struct ExIoCursor<T>(std::io::Cursor<T>);

#[verifier::external_type_specification]
#[verifier::external_body]
pub struct ExBytesStart<'a>(quick_xml::events::BytesStart<'a>);

#[verifier::external_type_specification]
#[verifier::external_body]
pub struct ExBytesEnd<'a>(quick_xml::events::BytesEnd<'a>);

#[verifier::external_type_specification]
#[verifier::external_body]
pub struct ExBytesText<'a>(quick_xml::events::BytesText<'a>);

#[verifier::external_type_specification]
#[verifier::external_body]
pub struct ExBytesCData<'a>(quick_xml::events::BytesCData<'a>);

#[verifier::external_type_specification]
#[verifier::external_body]
pub struct ExBytesRef<'a>(quick_xml::events::BytesRef<'a>);

#[verifier::external_type_specification]
#[verifier::external_body]
pub struct ExXmlError(quick_xml::Error);

#[verifier::external_type_specification]
#[verifier::external_body]
pub struct ExXmlEvent<'a>(QxEvent<'a>);

/// One event as `quick-xml` reports it, with its payload still in the
/// crate's own types.
pub enum RawXmlEvent {
    Start(quick_xml::events::BytesStart<'static>),
    Empty(quick_xml::events::BytesStart<'static>),
    End(quick_xml::events::BytesEnd<'static>),
    Text(quick_xml::events::BytesText<'static>),
    CData(quick_xml::events::BytesCData<'static>),
    GeneralRef(quick_xml::events::BytesRef<'static>),
    Other,
    Eof,
    Failed(quick_xml::Error),
}

/// An attribute as written: its qualified key and its raw (still escaped)
/// value.
#[derive(Debug, Clone, PartialEq, Eq)]
pub struct XmlAttr {
    pub key: String,
    pub value: String,
}

/// A start or empty-element tag.
#[derive(Debug, Clone, PartialEq, Eq)]
pub struct XmlTag {
    /// Qualified name, e.g. `w:p`.
    pub name: String,
    /// The attributes read without the duplicate-key check, in document
    /// order; an `Err` (the reader's message) ends the list.
    pub attrs: Vec<Result<XmlAttr, String>>,
    /// The attributes read with the duplicate-key check, in document order;
    /// an `Err` (the reader's message) ends the list.
    pub checked_attrs: Vec<Result<XmlAttr, String>>,
}

/// One token of an XML part.
#[derive(Debug, Clone, PartialEq, Eq)]
pub enum XmlToken {
    Start(XmlTag),
    Empty(XmlTag),
    /// An end tag, by qualified name.
    End(String),
    /// Character data between markup, as written.
    Text(String),
    /// The content of a CDATA section.
    CData(String),
    /// The name inside a general reference `&name;`.
    GeneralRef(String),
    /// A comment, declaration, processing instruction or doctype.
    Other,
    /// End of input.
    Eof,
    /// The reader failed; the message describes why. Always the last token.
    Malformed(String),
}

/// The tokens a `quick-xml` reader over `bytes` yields, in order, through
/// its first end of input or failure.
pub uninterp spec fn xml_tokens(bytes: Seq<u8>, check_end_names: bool) -> Seq<XmlToken>;

/// The tokens a reader has still to yield, through its first end of input
/// or failure.
pub uninterp spec fn xml_pending(r: quick_xml::Reader<std::io::Cursor<Vec<u8>>>) -> Seq<XmlToken>;

/// Creates a `quick-xml` reader over `bytes`.
///
/// Trusted: wraps `quick_xml::Reader::from_reader` and sets the
/// `check_end_names` option. The contract claims that the reader has all
/// the tokens of `bytes` still to yield, and that they end with an end of
/// input or a failure: the reader works over the bytes alone and every
/// event but the end consumes input.
#[verifier::external_body]
fn xml_reader(bytes: Vec<u8>, check_end_names: bool) -> (r: quick_xml::Reader<std::io::Cursor<Vec<u8>>>)
    ensures
        xml_pending(r) == xml_tokens(bytes@, check_end_names),
        well_terminated(xml_pending(r)),
{
    let mut reader = quick_xml::Reader::from_reader(std::io::Cursor::new(bytes));
    reader.config_mut().check_end_names = check_end_names;
    reader
}

/// Moves the payload of a `quick-xml` event into an owned [`RawXmlEvent`].
///
/// Trusted: sorts the event by variant and calls `into_owned` on its payload;
/// declarations, comments, processing instructions and doctypes become
/// `Other`.
#[verifier::external_body]
pub(crate) fn owned_event(ev: QxEvent<'_>) -> RawXmlEvent {
    match ev {
        QxEvent::Start(e) => RawXmlEvent::Start(e.into_owned()),
        QxEvent::Empty(e) => RawXmlEvent::Empty(e.into_owned()),
        QxEvent::End(e) => RawXmlEvent::End(e.into_owned()),
        QxEvent::Text(e) => RawXmlEvent::Text(e.into_owned()),
        QxEvent::CData(e) => RawXmlEvent::CData(e.into_owned()),
        QxEvent::GeneralRef(e) => RawXmlEvent::GeneralRef(e.into_owned()),
        QxEvent::Eof => RawXmlEvent::Eof,
        _ => RawXmlEvent::Other,
    }
}

/// Reads the next token.
///
/// Trusted: wraps `quick_xml::Reader::read_event_into` and converts the
/// event with [`owned_event`] and [`token_of`]. The contract claims that
/// the token is the next one the reader had to yield, and that the reader
/// then has the rest to yield.
#[verifier::external_body]
fn xml_next(reader: &mut quick_xml::Reader<std::io::Cursor<Vec<u8>>>) -> (t: XmlToken)
    ensures
        xml_pending(*old(reader)).len() > 0 ==> t == xml_pending(*old(reader))[0]
            && xml_pending(*final(reader)) == xml_pending(*old(reader)).drop_first(),
{
    let mut buf = Vec::new();
    let raw = match reader.read_event_into(&mut buf) {
        Ok(ev) => owned_event(ev),
        Err(e) => RawXmlEvent::Failed(e),
    };
    token_of(raw)
}

/// The qualified name of a start tag.
///
/// Trusted: wraps `BytesStart::name`.
#[verifier::external_body]
fn start_name(tag: &quick_xml::events::BytesStart<'static>) -> String {
    tag.name().0.to_string()
}

/// The attributes of a start tag, without the duplicate-key check, up to and
/// including the first syntax error.
///
/// Trusted: wraps `BytesStart::attributes` with `with_checks(false)`; each
/// attribute is converted to its key and raw value, an error to its message.
#[verifier::external_body]
fn start_attributes(tag: &quick_xml::events::BytesStart<'static>) -> Vec<Result<XmlAttr, String>> {
    let mut out = Vec::new();
    for a in tag.attributes().with_checks(false) {
        match a {
            Ok(a) => out.push(Ok(XmlAttr { key: a.key.0.to_string(), value: a.value.into_owned() })),
            Err(e) => { out.push(Err(e.to_string())); break; }
        }
    }
    out
}

/// The attributes of a start tag with the duplicate-key check on, up to and
/// including the first error.
///
/// Trusted: wraps `BytesStart::attributes`; each attribute is converted to
/// its key and raw value, an error to its message.
#[verifier::external_body]
fn start_attributes_checked(tag: &quick_xml::events::BytesStart<'static>) -> Vec<Result<XmlAttr, String>> {
    let mut out = Vec::new();
    for a in tag.attributes() {
        match a {
            Ok(a) => out.push(Ok(XmlAttr { key: a.key.0.to_string(), value: a.value.into_owned() })),
            Err(e) => { out.push(Err(e.to_string())); break; }
        }
    }
    out
}

/// The qualified name of an end tag.
///
/// Trusted: wraps `BytesEnd::name`.
#[verifier::external_body]
fn end_name(tag: &quick_xml::events::BytesEnd<'static>) -> String {
    tag.name().0.to_string()
}

/// The raw content of a text event.
///
/// Trusted: wraps `BytesText::into_inner`.
#[verifier::external_body]
fn text_content(text: quick_xml::events::BytesText<'static>) -> String {
    text.into_inner().into_owned()
}

/// The content of a CDATA section.
///
/// Trusted: wraps `BytesCData::into_inner`.
#[verifier::external_body]
fn cdata_content(data: quick_xml::events::BytesCData<'static>) -> String {
    data.into_inner().into_owned()
}

/// The name inside a general reference.
///
/// Trusted: wraps `BytesRef::into_inner`.
#[verifier::external_body]
fn ref_content(r: quick_xml::events::BytesRef<'static>) -> String {
    r.into_inner().into_owned()
}

/// The display text of a reader error.
///
/// Trusted: wraps `quick_xml::Error`'s `Display`.
#[verifier::external_body]
fn xml_error_text(e: &quick_xml::Error) -> String {
    e.to_string()
}

/// What `quick_xml::escape::unescape` returns for `raw`: the text with its
/// entity and character references replaced, or the error's message.
pub uninterp spec fn xml_unescaped(raw: Seq<char>) -> Result<Seq<char>, Seq<char>>;

/// Replaces the XML entity and character references in `raw`.
///
/// Trusted: wraps `quick_xml::escape::unescape`; its result (or the message
/// of its error) is named, a function of `raw` alone.
#[verifier::external_body]
pub(crate) fn xml_unescape(raw: &str) -> (r: Result<String, String>)
    ensures
        match xml_unescaped(raw@) {
            Ok(v) => r is Ok && r->Ok_0@ == v,
            Err(m) => r is Err && r->Err_0@ == m,
        },
{
    match quick_xml::escape::unescape(raw) {
        Ok(c) => Ok(c.into_owned()),
        Err(e) => Err(e.to_string()),
    }
}

/// The message of the reader error for a start tag named `name` whose end
/// tag never comes: the text `quick_xml` displays for
/// `Error::IllFormed(IllFormedError::MissingEndTag(name))`, the error
/// `Reader::read_to_end_into` reports at end of input.
pub open spec fn xml_missing_end_text(name: Seq<char>) -> Seq<char> {
    "ill-formed document: start tag not closed: `</"@ + name + ">` not found before end of input"@
}

/// The message of the reader error for a start tag named `name` whose end
/// tag never comes.
pub(crate) fn xml_missing_end_message(name: &str) -> (r: String)
    ensures
        r@ == xml_missing_end_text(name@),
{
    let a = crate::text::concat_str("ill-formed document: start tag not closed: `</", name);
    crate::text::concat_str(a.as_str(), ">` not found before end of input")
}

/// What `Attribute::normalized_value` (XML 1.0 rules) returns for a raw
/// attribute value: the normalized text, or the error's message.
pub uninterp spec fn xml_normalized_attr(raw: Seq<char>) -> Result<Seq<char>, Seq<char>>;

/// Normalizes a raw attribute value: references resolved, `\t`, `\r`, `\n`
/// turned into spaces.
///
/// Trusted: wraps `Attribute::normalized_value` with `XmlVersion::Implicit1_0`
/// on an attribute holding `raw` as its value; its result is named, a function
/// of the raw value alone.
#[verifier::external_body]
pub(crate) fn xml_normalize_attr(raw: &str) -> (r: Result<String, String>)
    ensures
        match xml_normalized_attr(raw@) {
            Ok(v) => r is Ok && r->Ok_0@ == v,
            Err(m) => r is Err && r->Err_0@ == m,
        },
{
    let attr = quick_xml::events::attributes::Attribute {
        key: quick_xml::name::QName("k"),
        value: std::borrow::Cow::Borrowed(raw),
    };
    match attr.normalized_value(quick_xml::XmlVersion::Implicit1_0) {
        Ok(v) => Ok(v.into_owned()),
        Err(e) => Err(e.to_string()),
    }
}

/// Whether a token ends the token sequence.
pub open spec fn is_final(t: XmlToken) -> bool {
    t is Eof || t is Malformed
}

/// A token sequence as the tokenizer produces it: non-empty, and ending with
/// its only `Eof` or `Malformed` token.
pub open spec fn well_terminated(toks: Seq<XmlToken>) -> bool {
    &&& toks.len() > 0
    &&& is_final(toks.last())
    &&& forall|i: int| 0 <= i < toks.len() - 1 ==> !is_final(#[trigger] toks[i])
}

fn convert_tag(tag: &quick_xml::events::BytesStart<'static>) -> (t: XmlTag) {
    XmlTag { name: start_name(tag), attrs: start_attributes(tag), checked_attrs: start_attributes_checked(tag) }
}

/// The plain token of a reader event: a token of the same kind.
pub(crate) fn token_of(ev: RawXmlEvent) -> (t: XmlToken)
    ensures
        match ev {
            RawXmlEvent::Start(_) => t is Start,
            RawXmlEvent::Empty(_) => t is Empty,
            RawXmlEvent::End(_) => t is End,
            RawXmlEvent::Text(_) => t is Text,
            RawXmlEvent::CData(_) => t is CData,
            RawXmlEvent::GeneralRef(_) => t is GeneralRef,
            RawXmlEvent::Other => t is Other,
            RawXmlEvent::Eof => t is Eof,
            RawXmlEvent::Failed(_) => t is Malformed,
        },
{
    match ev {
        RawXmlEvent::Start(e) => XmlToken::Start(convert_tag(&e)),
        RawXmlEvent::Empty(e) => XmlToken::Empty(convert_tag(&e)),
        RawXmlEvent::End(e) => XmlToken::End(end_name(&e)),
        RawXmlEvent::Text(e) => XmlToken::Text(text_content(e)),
        RawXmlEvent::CData(e) => XmlToken::CData(cdata_content(e)),
        RawXmlEvent::GeneralRef(e) => XmlToken::GeneralRef(ref_content(e)),
        RawXmlEvent::Other => XmlToken::Other,
        RawXmlEvent::Eof => XmlToken::Eof,
        RawXmlEvent::Failed(e) => XmlToken::Malformed(xml_error_text(&e)),
    }
}

/// Reads all tokens of an XML part. With `check_end_names`, an end tag that
/// does not close the innermost open element is a reader error.
pub fn tokenize_xml(bytes: Vec<u8>, check_end_names: bool) -> (toks: Vec<XmlToken>)
    ensures
        toks@ == xml_tokens(bytes@, check_end_names),
        well_terminated(toks@),
{
    let ghost all = xml_tokens(bytes@, check_end_names);
    let mut reader = xml_reader(bytes, check_end_names);
    let mut toks: Vec<XmlToken> = Vec::new();
    loop
        invariant
            toks@ + xml_pending(reader) == all,
            all == xml_tokens(bytes@, check_end_names),
            well_terminated(all),
            well_terminated(xml_pending(reader)),
            forall|i: int| 0 <= i < toks@.len() ==> !is_final(#[trigger] toks@[i]),
        decreases xml_pending(reader).len(),
    {
        let ghost pending = xml_pending(reader);
        let tok = xml_next(&mut reader);
        let done = matches!(tok, XmlToken::Eof | XmlToken::Malformed(_));
        let ghost before = toks@;
        toks.push(tok);
        proof {
            assert(toks@ + xml_pending(reader) =~= before + pending);
        }
        if done {
            proof {
                assert(pending.len() == 1) by {
                    if pending.len() > 1 {
                        assert(!is_final(pending[0]));
                    }
                }
                assert(xml_pending(reader).len() == 0);
                assert(toks@ =~= all);
            }
            return toks;
        }
    }
}

/// Index of the first `:` in a qualified name.
pub open spec fn first_colon(q: Seq<char>) -> Option<int>
    decreases q.len(),
{
    if q.len() == 0 {
        None
    } else if q[0] == ':' {
        Some(0)
    } else {
        match first_colon(q.drop_first()) {
            Some(i) => Some(i + 1),
            None => None,
        }
    }
}

/// The local part of a qualified name: what follows its first `:`, or the
/// whole name when it has none.
pub open spec fn local_name(q: Seq<char>) -> Seq<char> {
    match first_colon(q) {
        Some(i) => q.subrange(i + 1, q.len() as int),
        None => q,
    }
}

proof fn lemma_first_colon(q: Seq<char>)
    ensures
        match first_colon(q) {
            Some(i) => 0 <= i < q.len() && q[i] == ':' && forall|j: int| 0 <= j < i ==> q[j] != ':',
            None => forall|j: int| 0 <= j < q.len() ==> q[j] != ':',
        },
    decreases q.len(),
{
    if q.len() > 0 {
        lemma_first_colon(q.drop_first());
        if q[0] != ':' {
            match first_colon(q.drop_first()) {
                Some(i) => {
                    assert forall|j: int| 0 <= j < i + 1 implies q[j] != ':' by {
                        if j > 0 {
                            assert(q[j] == q.drop_first()[j - 1]);
                        }
                    }
                },
                None => {
                    assert forall|j: int| 0 <= j < q.len() implies q[j] != ':' by {
                        if j > 0 {
                            assert(q[j] == q.drop_first()[j - 1]);
                        }
                    }
                },
            }
        }
    }
}

/// Whether the local part of the qualified name `q` is `want`.
pub fn local_is(q: &str, want: &str) -> (r: bool)
    ensures
        r == (local_name(q@) == want@),
{
    let v = chars_of(q);
    let w = chars_of(want);
    proof {
        lemma_first_colon(q@);
    }
    let mut k: usize = 0;
    while k < v.len() && v[k] != ':'
        invariant
            v@ == q@,
            k <= v@.len(),
            forall|j: int| 0 <= j < k ==> v@[j] != ':',
        decreases v@.len() - k,
    {
        k = k + 1;
    }
    let start: usize = if k < v.len() { k + 1 } else { 0 };
    proof {
        if k < v@.len() {
            assert(first_colon(q@) == Some(k as int));
        } else {
            assert(first_colon(q@) is None);
        }
    }
    let ghost ln = local_name(q@);
    assert(ln =~= q@.subrange(start as int, q@.len() as int));
    if v.len() - start != w.len() {
        return false;
    }
    let mut i: usize = 0;
    while i < w.len()
        invariant
            v@ == q@,
            w@ == want@,
            start <= v@.len(),
            v@.len() - start == w@.len(),
            ln =~= v@.subrange(start as int, v@.len() as int),
            ln == local_name(q@),
            start + w@.len() == v@.len(),
            i <= w@.len(),
            forall|j: int| 0 <= j < i ==> ln[j] == w@[j],
        decreases w@.len() - i,
    {
        assert(start + i < v.len());
        let idx: usize = start + i;
        assert(ln[i as int] == v@[idx as int]);
        if v[idx] != w[i] {
            assert(ln[i as int] != w@[i as int]);
            return false;
        }
        i = i + 1;
    }
    assert(ln =~= w@);
    true
}

/// An attribute's raw value, by local key name, read with the duplicate-key
/// check: the first attribute whose key's local part is `key`, `None` when the
/// list ends first, or the reader's message when an error comes first.
pub open spec fn lookup_checked(attrs: Seq<Result<XmlAttr, String>>, key: Seq<char>) -> Result<Option<Seq<char>>, Seq<char>>
    decreases attrs.len(),
{
    if attrs.len() == 0 {
        Ok(None)
    } else {
        match attrs[0] {
            Err(m) => Err(m@),
            Ok(a) => if local_name(a.key@) == key {
                Ok(Some(a.value@))
            } else {
                lookup_checked(attrs.drop_first(), key)
            },
        }
    }
}

/// An attribute's raw value, by qualified key name, read without the
/// duplicate-key check: `None` when the list ends or an error comes first.
pub open spec fn lookup_exact(attrs: Seq<Result<XmlAttr, String>>, key: Seq<char>) -> Option<Seq<char>>
    decreases attrs.len(),
{
    if attrs.len() == 0 {
        None
    } else {
        match attrs[0] {
            Err(_) => None,
            Ok(a) => if a.key@ == key {
                Some(a.value@)
            } else {
                lookup_exact(attrs.drop_first(), key)
            },
        }
    }
}

/// Why a checked attribute read failed.
#[derive(Debug, Clone, PartialEq, Eq)]
pub enum AttrFault {
    /// The attribute list could not be read (the reader's message).
    Syntax(String),
    /// The value could not be normalized (the reader's message).
    Value(String),
}

/// What a checked, normalized attribute read gives: the normalized value, or
/// which step failed with its message (`true` for the value step).
pub open spec fn spec_checked_attr(tag: XmlTag, key: Seq<char>) -> Result<Option<Seq<char>>, (bool, Seq<char>)> {
    match lookup_checked(tag.checked_attrs@, key) {
        Err(m) => Err((false, m)),
        Ok(None) => Ok(None),
        Ok(Some(raw)) => match xml_normalized_attr(raw) {
            Ok(v) => Ok(Some(v)),
            Err(m) => Err((true, m)),
        },
    }
}

/// Reads the attribute whose key's local part is `key`, as the part parsers
/// of the package read attributes: duplicate keys are an error, and the value
/// is normalized.
pub fn checked_attr(tag: &XmlTag, key: &str) -> (r: Result<Option<String>, AttrFault>)
    ensures
        match spec_checked_attr(*tag, key@) {
            Ok(None) => r == Ok::<Option<String>, AttrFault>(None),
            Ok(Some(v)) => r is Ok && r->Ok_0 is Some && r->Ok_0->0@ == v,
            Err((is_value, m)) => r is Err && (if is_value {
                r->Err_0 is Value && r->Err_0->Value_0@ == m
            } else {
                r->Err_0 is Syntax && r->Err_0->Syntax_0@ == m
            }),
        },
{
    let attrs = &tag.checked_attrs;
    let mut i: usize = 0;
    assert(attrs@.subrange(0, attrs@.len() as int) =~= attrs@);
    while i < attrs.len()
        invariant
            attrs@ == tag.checked_attrs@,
            i <= attrs@.len(),
            lookup_checked(attrs@, key@) == lookup_checked(attrs@.subrange(i as int, attrs@.len() as int), key@),
        decreases attrs@.len() - i,
    {
        let ghost rest = attrs@.subrange(i as int, attrs@.len() as int);
        assert(rest.drop_first() =~= attrs@.subrange(i + 1, attrs@.len() as int));
        assert(rest[0] == attrs@[i as int]);
        match &attrs[i] {
            Err(m) => {
                return Err(AttrFault::Syntax(m.clone()));
            },
            Ok(a) => {
                if local_is(&a.key, key) {
                    return match xml_normalize_attr(&a.value) {
                        Ok(v) => Ok(Some(v)),
                        Err(m) => Err(AttrFault::Value(m)),
                    };
                }
            },
        }
        i = i + 1;
    }
    Ok(None)
}

/// Reads the raw value of the attribute whose qualified key is `key`,
/// without the duplicate-key check; `None` when absent or unreadable.
pub fn exact_attr(tag: &XmlTag, key: &str) -> (r: Option<String>)
    ensures
        match lookup_exact(tag.attrs@, key@) {
            Some(v) => r is Some && r->0@ == v,
            None => r is None,
        },
{
    let attrs = &tag.attrs;
    let mut i: usize = 0;
    assert(attrs@.subrange(0, attrs@.len() as int) =~= attrs@);
    while i < attrs.len()
        invariant
            attrs@ == tag.attrs@,
            i <= attrs@.len(),
            lookup_exact(attrs@, key@) == lookup_exact(attrs@.subrange(i as int, attrs@.len() as int), key@),
        decreases attrs@.len() - i,
    {
        let ghost rest = attrs@.subrange(i as int, attrs@.len() as int);
        assert(rest.drop_first() =~= attrs@.subrange(i + 1, attrs@.len() as int));
        assert(rest[0] == attrs@[i as int]);
        match &attrs[i] {
            Err(_) => {
                return None;
            },
            Ok(a) => {
                if str_eq(&a.key, key) {
                    return Some(a.value.clone());
                }
            },
        }
        i = i + 1;
    }
    None
}

/// A checked attribute parsed as `u32` (none when absent or not a number),
/// or the failure of reading it.
pub open spec fn spec_u32_attr(tag: XmlTag, key: Seq<char>) -> Result<Option<u32>, (bool, Seq<char>)> {
    match spec_checked_attr(tag, key) {
        Err(e) => Err(e),
        Ok(Some(v)) => Ok(crate::text::spec_parse_u32(v)),
        Ok(None) => Ok(None),
    }
}

/// Reads a checked attribute as `u32`.
pub fn u32_attr(tag: &XmlTag, key: &str) -> (r: Result<Option<u32>, AttrFault>)
    ensures
        match spec_u32_attr(*tag, key@) {
            Ok(v) => r == Ok::<Option<u32>, AttrFault>(v),
            Err((is_value, m)) => r matches Err(f) && (if is_value {
                f matches AttrFault::Value(x) && x@ == m
            } else {
                f matches AttrFault::Syntax(x) && x@ == m
            }),
        },
{
    match checked_attr(tag, key) {
        Ok(Some(v)) => Ok(crate::text::parse_u32(v.as_str())),
        Ok(None) => Ok(None),
        Err(f) => Err(f),
    }
}

/// The local part of a qualified name.
pub fn local_name_of(q: &str) -> (r: String)
    ensures
        r@ == local_name(q@),
{
    let v = chars_of(q);
    proof {
        lemma_first_colon(q@);
    }
    let mut k: usize = 0;
    while k < v.len() && v[k] != ':'
        invariant
            v@ == q@,
            k <= v@.len(),
            forall|j: int| 0 <= j < k ==> v@[j] != ':',
        decreases v@.len() - k,
    {
        k = k + 1;
    }
    let start: usize = if k < v.len() { k + 1 } else { 0 };
    proof {
        if k < v@.len() {
            assert(first_colon(q@) == Some(k as int));
        } else {
            assert(first_colon(q@) is None);
            assert(q@.subrange(0, q@.len() as int) =~= q@);
        }
    }
    crate::text::string_from(v.as_slice(), start)
}

} // verus!

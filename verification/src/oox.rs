//! OPC and WordprocessingML namespace URIs and relationship types.

use vstd::prelude::*;
use vstd::string::StringSliceAdditionalSpecFns;

verus! {

/// WordprocessingML namespace URI (transitional).
pub const WORDPROC_NS_TRANSITIONAL: &'static str = "http://schemas.openxmlformats.org/wordprocessingml/2006/main";

/// WordprocessingML namespace URI (strict).
pub const WORDPROC_NS_STRICT: &'static str = "http://purl.oclc.org/ooxml/wordprocessingml/main";

/// OPC relationships namespace URI.
pub const RELATIONSHIPS_NS: &'static str = "http://schemas.openxmlformats.org/package/2006/relationships";

/// Office document relationship type (transitional).
pub const OFFICE_DOC_REL_TRANSITIONAL: &'static str = "http://schemas.openxmlformats.org/officeDocument/2006/relationships/officeDocument";

/// Office document relationship type (strict).
pub const OFFICE_DOC_REL_STRICT: &'static str = "http://purl.oclc.org/ooxml/officeDocument/relationships/officeDocument";

/// Path of the package relationships part.
pub const PACKAGE_RELS_PATH: &'static str = "_rels/.rels";

/// Byte-wise equality of two slices.
pub fn bytes_eq(a: &[u8], b: &[u8]) -> (r: bool)
    ensures
        r == (a@ == b@),
{
    if a.len() != b.len() {
        return false;
    }
    let mut i: usize = 0;
    while i < a.len()
        invariant
            a@.len() == b@.len(),
            i <= a@.len(),
            forall|j: int| 0 <= j < i ==> a@[j] == b@[j],
        decreases a@.len() - i,
    {
        if a[i] != b[i] {
            return false;
        }
        i = i + 1;
    }
    assert(a@ =~= b@);
    true
}

/// Whether `ns` is the transitional or the strict WordprocessingML namespace.
pub fn is_wordprocessingml(ns: &[u8]) -> (r: bool)
    ensures
        r == (ns@ == WORDPROC_NS_TRANSITIONAL.spec_bytes() || ns@ == WORDPROC_NS_STRICT.spec_bytes()),
{
    bytes_eq(ns, WORDPROC_NS_TRANSITIONAL.as_bytes()) || bytes_eq(ns, WORDPROC_NS_STRICT.as_bytes())
}

/// Whether `rel_type` is the transitional or the strict office document
/// relationship type.
pub fn is_office_document_rel(rel_type: &[u8]) -> (r: bool)
    ensures
        r == (rel_type@ == OFFICE_DOC_REL_TRANSITIONAL.spec_bytes() || rel_type@ == OFFICE_DOC_REL_STRICT.spec_bytes()),
{
    bytes_eq(rel_type, OFFICE_DOC_REL_TRANSITIONAL.as_bytes()) || bytes_eq(rel_type, OFFICE_DOC_REL_STRICT.as_bytes())
}

} // verus!

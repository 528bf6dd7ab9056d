use docx_reader::oox::{is_office_document_rel, is_wordprocessingml, OFFICE_DOC_REL_TRANSITIONAL, WORDPROC_NS_STRICT, WORDPROC_NS_TRANSITIONAL};

#[test]
fn is_wordprocessingml_matches_transitional() {
    assert!(is_wordprocessingml(WORDPROC_NS_TRANSITIONAL.as_bytes()));
}

#[test]
fn is_wordprocessingml_matches_strict() {
    assert!(is_wordprocessingml(WORDPROC_NS_STRICT.as_bytes()));
}

#[test]
fn is_wordprocessingml_rejects_garbage() {
    assert!(!is_wordprocessingml(b"random"));
}

#[test]
fn is_wordprocessingml_rejects_near_miss() {
    assert!(!is_wordprocessingml(
        b"http://schemas.openxmlformats.org/wordprocessingml/2006/maim"
    ));
}

#[test]
fn is_office_document_rel_matches_transitional() {
    assert!(is_office_document_rel(OFFICE_DOC_REL_TRANSITIONAL.as_bytes()));
}

#[test]
fn is_office_document_rel_rejects_garbage() {
    assert!(!is_office_document_rel(b"random"));
}

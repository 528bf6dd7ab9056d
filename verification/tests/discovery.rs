use std::io::Cursor;
use std::io::Write as _;

use docx_reader::discovery::discover_main_part;
use docx_reader::events::DocxError;
use docx_reader::paths::normalize_part_path;
use zip::write::SimpleFileOptions;
use zip::{ZipArchive, ZipWriter};

const RELS_NS: &str = "http://schemas.openxmlformats.org/package/2006/relationships";
const TRANSITIONAL_TYPE: &str =
    "http://schemas.openxmlformats.org/officeDocument/2006/relationships/officeDocument";
const STRICT_TYPE: &str =
    "http://purl.oclc.org/ooxml/officeDocument/relationships/officeDocument";

fn build_test_docx_with_rels(rels_xml: &str, parts: &[(&str, &[u8])]) -> Vec<u8> {
    let buf = Cursor::new(Vec::new());
    let mut zip = ZipWriter::new(buf);
    let options = SimpleFileOptions::default();
    zip.start_file("_rels/.rels", options).unwrap();
    zip.write_all(rels_xml.as_bytes()).unwrap();
    for (path, content) in parts {
        zip.start_file(*path, options).unwrap();
        zip.write_all(content).unwrap();
    }
    zip.finish().unwrap().into_inner()
}

fn build_test_docx_no_rels() -> Vec<u8> {
    let buf = Cursor::new(Vec::new());
    let mut zip = ZipWriter::new(buf);
    let options = SimpleFileOptions::default();
    zip.start_file("word/document.xml", options).unwrap();
    zip.write_all(b"<w:document/>").unwrap();
    zip.finish().unwrap().into_inner()
}

#[test]
fn discover_main_part_finds_transitional_office_doc() {
    let rels_xml = format!(
        r#"<?xml version="1.0" encoding="UTF-8" standalone="yes"?><Relationships xmlns="{RELS_NS}"><Relationship Id="rId1" Type="{TRANSITIONAL_TYPE}" Target="word/document.xml"/></Relationships>"#
    );
    let bytes = build_test_docx_with_rels(&rels_xml, &[("word/document.xml", b"")]);
    let mut archive = ZipArchive::new(Cursor::new(bytes)).unwrap();
    assert_eq!(
        discover_main_part(&mut archive).unwrap(),
        "word/document.xml"
    );
}

#[test]
fn discover_main_part_finds_strict_office_doc() {
    let rels_xml = format!(
        r#"<?xml version="1.0" encoding="UTF-8" standalone="yes"?><Relationships xmlns="{RELS_NS}"><Relationship Id="rId1" Type="{STRICT_TYPE}" Target="word/document.xml"/></Relationships>"#
    );
    let bytes = build_test_docx_with_rels(&rels_xml, &[("word/document.xml", b"")]);
    let mut archive = ZipArchive::new(Cursor::new(bytes)).unwrap();
    assert_eq!(
        discover_main_part(&mut archive).unwrap(),
        "word/document.xml"
    );
}

#[test]
fn discover_main_part_finds_alternate_path() {
    let rels_xml = format!(
        r#"<?xml version="1.0" encoding="UTF-8" standalone="yes"?><Relationships xmlns="{RELS_NS}"><Relationship Id="rId1" Type="{TRANSITIONAL_TYPE}" Target="content/main.xml"/></Relationships>"#
    );
    let bytes = build_test_docx_with_rels(&rels_xml, &[("content/main.xml", b"")]);
    let mut archive = ZipArchive::new(Cursor::new(bytes)).unwrap();
    assert_eq!(
        discover_main_part(&mut archive).unwrap(),
        "content/main.xml"
    );
}

#[test]
fn discover_main_part_errors_when_missing() {
    let rels_xml = format!(
        r#"<?xml version="1.0" encoding="UTF-8" standalone="yes"?><Relationships xmlns="{RELS_NS}"><Relationship Id="rId1" Type="http://schemas.openxmlformats.org/officeDocument/2006/relationships/styles" Target="word/styles.xml"/></Relationships>"#
    );
    let bytes = build_test_docx_with_rels(&rels_xml, &[("word/styles.xml", b"")]);
    let mut archive = ZipArchive::new(Cursor::new(bytes)).unwrap();
    let result = discover_main_part(&mut archive);
    assert!(matches!(
        &result,
        Err(DocxError::Parse { message, .. })
            if message == "no Main Document relationship found"
    ));
}

#[test]
fn discover_main_part_errors_when_rels_absent() {
    let bytes = build_test_docx_no_rels();
    let mut archive = ZipArchive::new(Cursor::new(bytes)).unwrap();
    let result = discover_main_part(&mut archive);
    assert!(matches!(
        &result,
        Err(DocxError::Parse { message, .. })
            if message == "package missing _rels/.rels"
    ));
}

#[test]
fn discover_main_part_errors_on_malformed_xml() {
    let bytes = build_test_docx_with_rels("<<<not xml>>>", &[]);
    let mut archive = ZipArchive::new(Cursor::new(bytes)).unwrap();
    assert!(matches!(
        discover_main_part(&mut archive),
        Err(DocxError::Parse { .. })
    ));
}

#[test]
fn discover_main_part_takes_first_match() {
    let rels_xml = format!(
        r#"<?xml version="1.0" encoding="UTF-8" standalone="yes"?><Relationships xmlns="{RELS_NS}"><Relationship Id="rId1" Type="{TRANSITIONAL_TYPE}" Target="word/document.xml"/><Relationship Id="rId2" Type="{TRANSITIONAL_TYPE}" Target="word/document2.xml"/></Relationships>"#
    );
    let bytes = build_test_docx_with_rels(
        &rels_xml,
        &[("word/document.xml", b""), ("word/document2.xml", b"")],
    );
    let mut archive = ZipArchive::new(Cursor::new(bytes)).unwrap();
    assert_eq!(
        discover_main_part(&mut archive).unwrap(),
        "word/document.xml"
    );
}

#[test]
fn normalize_part_path_accepts_plain() {
    let result = normalize_part_path("word/document.xml");
    assert_eq!(result.unwrap(), "word/document.xml");
}

#[test]
fn normalize_part_path_strips_leading_slash() {
    let result = normalize_part_path("/word/document.xml");
    assert_eq!(result.unwrap(), "word/document.xml");
}

#[test]
fn normalize_part_path_rejects_parent_traversal() {
    let result = normalize_part_path("../etc/passwd");
    assert!(matches!(
        result,
        Err(DocxError::Parse { ref message, .. })
            if message.contains("path traversal")
    ));
}

#[test]
fn normalize_part_path_rejects_dotdot_segment() {
    let result = normalize_part_path("word/../../etc/passwd");
    assert!(matches!(
        result,
        Err(DocxError::Parse { ref message, .. })
            if message.contains("path traversal")
    ));
}

#[test]
fn normalize_part_path_rejects_current_dir_segment() {
    let result = normalize_part_path("./word/document.xml");
    assert!(matches!(
        result,
        Err(DocxError::Parse { ref message, .. })
            if message.contains("path traversal")
    ));
}

#[test]
fn normalize_part_path_rejects_empty_segment() {
    let result = normalize_part_path("word//document.xml");
    assert!(matches!(
        result,
        Err(DocxError::Parse { ref message, .. })
            if message.contains("path traversal")
    ));
}

#[test]
fn normalize_part_path_rejects_drive_letter() {
    let result = normalize_part_path("C:/word/document.xml");
    assert!(matches!(
        result,
        Err(DocxError::Parse { ref message, .. })
            if message.contains("absolute or external")
    ));
}

#[test]
fn normalize_part_path_rejects_url() {
    let result = normalize_part_path("http://evil.com/x.xml");
    assert!(matches!(
        result,
        Err(DocxError::Parse { ref message, .. })
            if message.contains("absolute or external")
    ));
}

#[test]
fn normalize_part_path_rejects_backslash() {
    let result = normalize_part_path("word\\document.xml");
    assert!(matches!(
        result,
        Err(DocxError::Parse { ref message, .. })
            if message.contains("path traversal")
    ));
}

#[test]
fn normalize_part_path_rejects_percent_encoding() {
    let result = normalize_part_path("word%2Fdocument.xml");
    assert!(matches!(
        result,
        Err(DocxError::Parse { ref message, .. })
            if message.contains("percent-encoded")
    ));
}

#[test]
fn discover_rejects_traversal_in_target() {
    let rels_xml = format!(
        r#"<?xml version="1.0" encoding="UTF-8" standalone="yes"?><Relationships xmlns="{RELS_NS}"><Relationship Id="rId1" Type="{TRANSITIONAL_TYPE}" Target="../../etc/passwd"/></Relationships>"#
    );
    let bytes = build_test_docx_with_rels(&rels_xml, &[]);
    let mut archive = ZipArchive::new(Cursor::new(bytes)).unwrap();
    let result = discover_main_part(&mut archive);
    assert!(matches!(
        result,
        Err(DocxError::Parse { ref message, .. })
            if message.contains("path traversal")
    ));
}

#[test]
fn discover_main_part_handles_attribute_error() {
    // Relationship with malformed attribute (missing closing quote)
    let rels_xml = format!(
        r#"<?xml version="1.0" encoding="UTF-8" standalone="yes"?><Relationships xmlns="{RELS_NS}"><Relationship Id="rId1" Type="{TRANSITIONAL_TYPE}" Target="word/document.xml/></Relationships>"#
    );
    let bytes = build_test_docx_with_rels(&rels_xml, &[]);
    let mut archive = ZipArchive::new(Cursor::new(bytes)).unwrap();
    let result = discover_main_part(&mut archive);
    assert!(matches!(
        result,
        Err(DocxError::Parse { ref message, .. })
            if message.contains("attribute error") || message.contains("XML parse error")
    ));
}

#[test]
fn discover_main_part_handles_invalid_utf8_in_target() {
    // This test verifies UTF-8 validation in Target attribute
    // We create a relationship with a valid structure but test the UTF-8 path
    let rels_xml = format!(
        r#"<?xml version="1.0" encoding="UTF-8" standalone="yes"?><Relationships xmlns="{RELS_NS}"><Relationship Id="rId1" Type="{TRANSITIONAL_TYPE}" Target="word/document.xml"/></Relationships>"#
    );
    let bytes = build_test_docx_with_rels(&rels_xml, &[("word/document.xml", b"")]);
    let mut archive = ZipArchive::new(Cursor::new(bytes)).unwrap();
    // This should succeed since the Target is valid UTF-8
    let result = discover_main_part(&mut archive);
    assert!(matches!(result, Ok(path) if path == "word/document.xml"));
}

#[test]
fn discover_main_part_with_multiple_relationships() {
    // Test that discover_main_part returns the first matching office document relationship
    let rels_xml = format!(
        r#"<?xml version="1.0" encoding="UTF-8" standalone="yes"?><Relationships xmlns="{RELS_NS}"><Relationship Id="rId1" Type="http://schemas.openxmlformats.org/officeDocument/2006/relationships/styles" Target="word/styles.xml"/><Relationship Id="rId2" Type="{TRANSITIONAL_TYPE}" Target="word/document.xml"/><Relationship Id="rId3" Type="{TRANSITIONAL_TYPE}" Target="word/document2.xml"/></Relationships>"#
    );
    let bytes = build_test_docx_with_rels(
        &rels_xml,
        &[
            ("word/styles.xml", b""),
            ("word/document.xml", b""),
            ("word/document2.xml", b""),
        ],
    );
    let mut archive = ZipArchive::new(Cursor::new(bytes)).unwrap();
    let result = discover_main_part(&mut archive);
    // Should return the first office document relationship
    assert!(matches!(result, Ok(path) if path == "word/document.xml"));
}

#[test]
fn discover_main_part_with_non_matching_relationships() {
    // Test that discover_main_part errors when no office document relationship exists
    let rels_xml = format!(
        r#"<?xml version="1.0" encoding="UTF-8" standalone="yes"?><Relationships xmlns="{RELS_NS}"><Relationship Id="rId1" Type="http://schemas.openxmlformats.org/officeDocument/2006/relationships/styles" Target="word/styles.xml"/><Relationship Id="rId2" Type="http://schemas.openxmlformats.org/officeDocument/2006/relationships/fontTable" Target="word/fontTable.xml"/></Relationships>"#
    );
    let bytes = build_test_docx_with_rels(
        &rels_xml,
        &[("word/styles.xml", b""), ("word/fontTable.xml", b"")],
    );
    let mut archive = ZipArchive::new(Cursor::new(bytes)).unwrap();
    let result = discover_main_part(&mut archive);
    assert!(matches!(
        result,
        Err(DocxError::Parse { message, .. })
            if message == "no Main Document relationship found"
    ));
}

#[test]
fn discover_main_part_with_leading_slash_in_target() {
    // Test that discover_main_part strips leading slash from Target
    let rels_xml = format!(
        r#"<?xml version="1.0" encoding="UTF-8" standalone="yes"?><Relationships xmlns="{RELS_NS}"><Relationship Id="rId1" Type="{TRANSITIONAL_TYPE}" Target="/word/document.xml"/></Relationships>"#
    );
    let bytes = build_test_docx_with_rels(&rels_xml, &[("word/document.xml", b"")]);
    let mut archive = ZipArchive::new(Cursor::new(bytes)).unwrap();
    let result = discover_main_part(&mut archive);
    assert!(matches!(result, Ok(path) if path == "word/document.xml"));
}

#[test]
fn discover_main_part_with_empty_target() {
    // Test that discover_main_part rejects empty Target
    let rels_xml = format!(
        r#"<?xml version="1.0" encoding="UTF-8" standalone="yes"?><Relationships xmlns="{RELS_NS}"><Relationship Id="rId1" Type="{TRANSITIONAL_TYPE}" Target=""/></Relationships>"#
    );
    let bytes = build_test_docx_with_rels(&rels_xml, &[]);
    let mut archive = ZipArchive::new(Cursor::new(bytes)).unwrap();
    let result = discover_main_part(&mut archive);
    assert!(matches!(
        result,
        Err(DocxError::Parse { message, .. })
            if message.contains("path traversal")
    ));
}

#[test]
fn discover_main_part_with_only_slash_target() {
    // Test that discover_main_part rejects Target that is only a slash
    let rels_xml = format!(
        r#"<?xml version="1.0" encoding="UTF-8" standalone="yes"?><Relationships xmlns="{RELS_NS}"><Relationship Id="rId1" Type="{TRANSITIONAL_TYPE}" Target="/"/></Relationships>"#
    );
    let bytes = build_test_docx_with_rels(&rels_xml, &[]);
    let mut archive = ZipArchive::new(Cursor::new(bytes)).unwrap();
    let result = discover_main_part(&mut archive);
    assert!(matches!(
        result,
        Err(DocxError::Parse { message, .. })
            if message.contains("path traversal")
    ));
}

#[test]
fn discover_main_part_with_relationship_missing_type() {
    // Test that discover_main_part skips relationships without Type attribute
    let rels_xml = format!(
        r#"<?xml version="1.0" encoding="UTF-8" standalone="yes"?><Relationships xmlns="{RELS_NS}"><Relationship Id="rId1" Target="word/document.xml"/><Relationship Id="rId2" Type="{TRANSITIONAL_TYPE}" Target="word/document2.xml"/></Relationships>"#
    );
    let bytes = build_test_docx_with_rels(
        &rels_xml,
        &[("word/document.xml", b""), ("word/document2.xml", b"")],
    );
    let mut archive = ZipArchive::new(Cursor::new(bytes)).unwrap();
    let result = discover_main_part(&mut archive);
    // Should skip the first relationship (no Type) and return the second
    assert!(matches!(result, Ok(path) if path == "word/document2.xml"));
}

#[test]
fn discover_main_part_with_relationship_missing_target() {
    // Test that discover_main_part skips relationships without Target attribute
    let rels_xml = format!(
        r#"<?xml version="1.0" encoding="UTF-8" standalone="yes"?><Relationships xmlns="{RELS_NS}"><Relationship Id="rId1" Type="{TRANSITIONAL_TYPE}"/><Relationship Id="rId2" Type="{TRANSITIONAL_TYPE}" Target="word/document.xml"/></Relationships>"#
    );
    let bytes = build_test_docx_with_rels(&rels_xml, &[("word/document.xml", b"")]);
    let mut archive = ZipArchive::new(Cursor::new(bytes)).unwrap();
    let result = discover_main_part(&mut archive);
    // Should skip the first relationship (no Target) and return the second
    assert!(matches!(result, Ok(path) if path == "word/document.xml"));
}

#[test]
fn discover_main_part_resolves_prefixed_namespace() {
    let rels_xml = format!(
        r#"<p:Relationships xmlns:p="{RELS_NS}"><p:Relationship Id="rId1" Type="{TRANSITIONAL_TYPE}" Target="word/document.xml"/></p:Relationships>"#
    );
    let bytes = build_test_docx_with_rels(&rels_xml, &[("word/document.xml", b"")]);
    let mut archive = ZipArchive::new(Cursor::new(bytes)).unwrap();
    assert_eq!(discover_main_part(&mut archive).unwrap(), "word/document.xml");
}

#[test]
fn discover_main_part_ignores_relationship_in_other_namespace() {
    let rels_xml = format!(
        r#"<Relationships xmlns="http://example.com/other"><Relationship Id="rId1" Type="{TRANSITIONAL_TYPE}" Target="word/document.xml"/></Relationships>"#
    );
    let bytes = build_test_docx_with_rels(&rels_xml, &[("word/document.xml", b"")]);
    let mut archive = ZipArchive::new(Cursor::new(bytes)).unwrap();
    let result = discover_main_part(&mut archive);
    assert!(matches!(
        result,
        Err(DocxError::Parse { message, .. }) if message == "no Main Document relationship found"
    ));
}

#[test]
fn discover_main_part_reports_percent_encoded_target() {
    let rels_xml = format!(
        r#"<Relationships xmlns="{RELS_NS}"><Relationship Type="{STRICT_TYPE}" Target="word%2Fdocument.xml"/></Relationships>"#
    );
    let bytes = build_test_docx_with_rels(&rels_xml, &[]);
    let mut archive = ZipArchive::new(Cursor::new(bytes)).unwrap();
    let result = discover_main_part(&mut archive);
    assert!(matches!(
        result,
        Err(DocxError::Parse { message, position: None })
            if message == "rejected percent-encoded Target: word%2Fdocument.xml"
    ));
}

#[test]
fn normalize_part_path_strips_only_one_leading_slash() {
    let result = normalize_part_path("//word/document.xml");
    match result {
        Err(DocxError::Parse { message, .. }) => assert!(message.contains("path traversal"), "{message}"),
        other => panic!("expected path traversal error, got {other:?}"),
    }
}

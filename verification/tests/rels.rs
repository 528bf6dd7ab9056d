use docx_reader::events::DocxError;
use docx_reader::rels::{collect_hyperlink_map, collect_image_map, find_document_target, find_numbering_target, find_styles_target, HyperlinkMap, ImageMap};

fn minimal_rels(target: &str) -> String {
    format!(
        r#"<?xml version="1.0" encoding="UTF-8"?>
<Relationships xmlns="http://schemas.openxmlformats.org/package/2006/relationships">
  <Relationship Id="rId1" Type="http://schemas.openxmlformats.org/officeDocument/2006/relationships/officeDocument" Target="{target}"/>
</Relationships>"#
    )
}

fn assert_document_path(result: Result<String, DocxError>, expected: &str) {
    match result {
        Ok(path) => assert_eq!(path, expected),
        Err(err) => assert_eq!(format!("{err:?}"), "expected document path"),
    }
}

fn minimal_styles_rels(target: &str) -> String {
    format!(
        r#"<?xml version="1.0" encoding="UTF-8"?>
<Relationships xmlns="http://schemas.openxmlformats.org/package/2006/relationships">
  <Relationship Id="rId1" Type="http://schemas.openxmlformats.org/officeDocument/2006/relationships/styles" Target="{target}"/>
</Relationships>"#
    )
}

fn minimal_numbering_rels(target: &str) -> String {
    format!(
        r#"<?xml version="1.0" encoding="UTF-8"?>
<Relationships xmlns="http://schemas.openxmlformats.org/package/2006/relationships">
   <Relationship Id="rId1" Type="http://schemas.openxmlformats.org/officeDocument/2006/relationships/numbering" Target="{target}"/>
</Relationships>"#
    )
}

fn minimal_image_rels(target: &str) -> String {
    format!(
        r#"<?xml version="1.0" encoding="UTF-8"?>
<Relationships xmlns="http://schemas.openxmlformats.org/package/2006/relationships">
  <Relationship Id="rId5" Type="http://schemas.openxmlformats.org/officeDocument/2006/relationships/image" Target="{target}"/>
</Relationships>"#
    )
}

/// The map holds exactly the expected pairs.
fn assert_hyperlink_map(result: Result<HyperlinkMap, DocxError>, expected: &[(&str, &str)]) {
    match result {
        Ok(map) => {
            assert_eq!(map.len(), expected.len());
            for (id, target) in expected {
                assert_eq!(map.get(id), Some(*target));
            }
        }
        Err(err) => assert_eq!(format!("{err:?}"), "expected hyperlink map"),
    }
}

fn assert_hyperlinks_parse_error(result: Result<HyperlinkMap, DocxError>, expected_message: &str) {
    assert_eq!(
        format!("{result:?}"),
        format!("Err(Parse {{ message: {expected_message:?}, position: None }})")
    );
}

fn assert_images_parse_error(result: Result<ImageMap, DocxError>, expected_message: &str) {
    match result {
        Err(DocxError::Parse { message, position }) => {
            assert_eq!(message, expected_message);
            assert_eq!(position, None);
        }
        other => assert_eq!(format!("{other:?}"), "expected relationship parse error"),
    }
}

#[test]
fn find_document_target_returns_target_for_simple_rels() {
    let rels_xml = minimal_rels("word/document.xml");

    let result = find_document_target(rels_xml.as_bytes());

    assert_document_path(result, "word/document.xml");
}

#[test]
fn find_document_target_errors_when_no_office_document_relationship() {
    let rels_xml = r#"<Relationships xmlns="http://schemas.openxmlformats.org/package/2006/relationships">
  <Relationship Id="rId1" Type="http://example.com/not-office" Target="word/document.xml"/>
</Relationships>"#;

    let result = find_document_target(rels_xml.as_bytes());

    match result {
        Err(DocxError::Parse { message, position }) => {
            assert_eq!(message, "no officeDocument relationship");
            assert_eq!(position, None);
        }
        other => assert_eq!(
            format!("{other:?}"),
            "expected no officeDocument parse error"
        ),
    }
}

#[test]
fn find_document_target_errors_after_balanced_nested_non_matching_rels() {
    let rels_xml = r#"<Relationships xmlns="http://schemas.openxmlformats.org/package/2006/relationships">
  <Group><Relationship Id="rId1" Type="http://example.com/not-office" Target="word/document.xml"></Relationship></Group>
</Relationships>"#;

    let result = find_document_target(rels_xml.as_bytes());

    match result {
        Err(DocxError::Parse { message, position }) => {
            assert_eq!(message, "no officeDocument relationship");
            assert_eq!(position, None);
        }
        other => assert_eq!(
            format!("{other:?}"),
            "expected balanced traversal parse error"
        ),
    }
}

#[test]
fn find_document_target_errors_on_unexpected_closing_element() {
    let result = find_document_target("</Relationships>".as_bytes());

    match result {
        Err(DocxError::Parse { message, position }) => {
            assert_eq!(message, "malformed _rels/.rels");
            assert_eq!(position, None);
        }
        other => assert_eq!(
            format!("{other:?}"),
            "expected unexpected closing element parse error"
        ),
    }
}

#[test]
fn find_document_target_errors_on_rels_xml_parser_error() {
    let result = find_document_target("<Relationships><".as_bytes());

    match result {
        Err(DocxError::Parse { message, position }) => {
            assert_eq!(message, "malformed _rels/.rels");
            assert_eq!(position, None);
        }
        other => assert_eq!(format!("{other:?}"), "expected rels parser error"),
    }
}

#[test]
fn find_document_target_strips_leading_slash() {
    let rels_xml = minimal_rels("/word/document.xml");

    let result = find_document_target(rels_xml.as_bytes());

    assert_document_path(result, "word/document.xml");
}

#[test]
fn find_document_target_picks_office_document_among_multiple_relationships() {
    let rels_xml = r#"<Relationships xmlns="http://schemas.openxmlformats.org/package/2006/relationships">
  <Relationship Id="rId1" Type="http://example.com/metadata" Target="docProps/core.xml"/>
  <Relationship Id="rId2" Type="http://schemas.openxmlformats.org/officeDocument/2006/relationships/officeDocument" Target="word/document.xml"/>
  <Relationship Id="rId3" Type="http://example.com/theme" Target="word/theme/theme1.xml"/>
</Relationships>"#;

    let result = find_document_target(rels_xml.as_bytes());

    assert_document_path(result, "word/document.xml");
}

#[test]
fn find_document_target_accepts_non_empty_relationship_element() {
    let rels_xml = r#"<Relationships xmlns="http://schemas.openxmlformats.org/package/2006/relationships">
  <Relationship Id="rId1" Type="http://schemas.openxmlformats.org/officeDocument/2006/relationships/officeDocument" Target="word/document.xml"></Relationship>
</Relationships>"#;

    let result = find_document_target(rels_xml.as_bytes());

    assert_document_path(result, "word/document.xml");
}

#[test]
fn find_document_target_errors_on_malformed_relationship_attribute() {
    let rels_xml = r#"<Relationships xmlns="http://schemas.openxmlformats.org/package/2006/relationships">
  <Relationship Id="rId1" Type="http://schemas.openxmlformats.org/officeDocument/2006/relationships/officeDocument" Target=word/document.xml/>
</Relationships>"#;

    let result = find_document_target(rels_xml.as_bytes());

    match result {
        Err(DocxError::Parse { message, position }) => {
            assert_eq!(
                message,
                "malformed _rels/.rels: position 120: attribute value must be enclosed in `\"` or `'`"
            );
            assert_eq!(position, None);
        }
        other => assert_eq!(format!("{other:?}"), "expected attribute parse error"),
    }
}

#[test]
fn find_document_target_errors_on_bad_attribute_entity() {
    let rels_xml = r#"<Relationships xmlns="http://schemas.openxmlformats.org/package/2006/relationships">
  <Relationship Id="rId1" Type="http://schemas.openxmlformats.org/officeDocument/2006/relationships/officeDocument" Target="word/&bogus;.xml"/>
</Relationships>"#;

    let result = find_document_target(rels_xml.as_bytes());

    match result {
        Err(DocxError::Parse { message, position }) => {
            assert_eq!(
                message,
                "malformed _rels/.rels: at 6..11: unrecognized entity `bogus`"
            );
            assert_eq!(position, None);
        }
        other => assert_eq!(format!("{other:?}"), "expected entity parse error"),
    }
}

#[test]
fn find_document_target_tolerates_namespaced_relationship_element() {
    let rels_xml = r#"<r:Relationships xmlns:r="http://schemas.openxmlformats.org/package/2006/relationships">
  <r:Relationship Id="rId1" Type="http://schemas.openxmlformats.org/officeDocument/2006/relationships/officeDocument" Target="word/document.xml"/>
</r:Relationships>"#;

    let result = find_document_target(rels_xml.as_bytes());

    assert_document_path(result, "word/document.xml");
}

#[test]
fn find_document_target_errors_on_malformed_rels_xml() {
    let result = find_document_target("<broken>".as_bytes());

    match result {
        Err(DocxError::Parse { message, position }) => {
            assert_eq!(message, "malformed _rels/.rels");
            assert_eq!(position, None);
        }
        other => assert_eq!(format!("{other:?}"), "expected malformed rels parse error"),
    }
}

#[test]
fn find_document_target_rejects_target_with_dotdot_segment() {
    let rels_xml = minimal_rels("../foo/document.xml");

    let result = find_document_target(rels_xml.as_bytes());

    match result {
        Err(DocxError::Parse { message, position }) => {
            assert_eq!(
                message,
                "rels target contains parent reference: ../foo/document.xml"
            );
            assert_eq!(position, None);
        }
        other => assert_eq!(format!("{other:?}"), "expected dotdot parse error"),
    }
}

#[test]
fn find_document_target_handles_target_with_entities() {
    let rels_xml = minimal_rels("word/doc&amp;ument.xml");

    let result = find_document_target(rels_xml.as_bytes());
    assert_document_path(result, "word/doc&ument.xml");
}

#[test]
fn rels_collect_hyperlink_map_returns_empty_for_empty_relationships() {
    let rels_xml = r#"<Relationships xmlns="http://schemas.openxmlformats.org/package/2006/relationships"/>"#;

    let result = collect_hyperlink_map(rels_xml.as_bytes());

    assert_hyperlink_map(result, &[]);
}

#[test]
fn rels_collect_hyperlink_map_finds_strict_uri_hyperlink() {
    let rels_xml = r#"<Relationships xmlns="http://schemas.openxmlformats.org/package/2006/relationships">
  <Relationship Id="rId1" Type="http://purl.oclc.org/ooxml/officeDocument/relationships/hyperlink" Target="https://example.com"/>
</Relationships>"#;

    let result = collect_hyperlink_map(rels_xml.as_bytes());

    assert_hyperlink_map(result, &[("rId1", "https://example.com")]);
}

#[test]
fn rels_collect_hyperlink_map_finds_transitional_uri_hyperlink() {
    let rels_xml = r#"<Relationships xmlns="http://schemas.openxmlformats.org/package/2006/relationships">
  <Relationship Id="rId1" Type="http://schemas.openxmlformats.org/officeDocument/2006/relationships/hyperlink" Target="https://example.com"/>
</Relationships>"#;

    let result = collect_hyperlink_map(rels_xml.as_bytes());

    assert_hyperlink_map(result, &[("rId1", "https://example.com")]);
}

#[test]
fn rels_collect_hyperlink_map_skips_non_hyperlink_relationships() {
    let rels_xml = r#"<Relationships xmlns="http://schemas.openxmlformats.org/package/2006/relationships">
  <Relationship Id="rId1" Type="http://schemas.openxmlformats.org/officeDocument/2006/relationships/styles" Target="word/styles.xml"/>
  <Relationship Id="rId2" Type="http://schemas.openxmlformats.org/officeDocument/2006/relationships/image" Target="media/image1.png"/>
  <Relationship Id="rId3" Type="http://schemas.openxmlformats.org/officeDocument/2006/relationships/officeDocument" Target="word/document.xml"/>
</Relationships>"#;

    let result = collect_hyperlink_map(rels_xml.as_bytes());

    assert_hyperlink_map(result, &[]);
}

#[test]
fn rels_collect_hyperlink_map_collects_multiple_hyperlinks() {
    let rels_xml = r#"<Relationships xmlns="http://schemas.openxmlformats.org/package/2006/relationships">
  <Relationship Id="rId1" Type="http://schemas.openxmlformats.org/officeDocument/2006/relationships/hyperlink" Target="https://example.com/one"/>
  <Relationship Id="rId2" Type="http://purl.oclc.org/ooxml/officeDocument/relationships/hyperlink" Target="https://example.com/two"/>
  <Relationship Id="rId3" Type="http://schemas.openxmlformats.org/officeDocument/2006/relationships/hyperlink" Target="https://example.com/three"/>
</Relationships>"#;

    let result = collect_hyperlink_map(rels_xml.as_bytes());

    assert_hyperlink_map(
        result,
        &[
            ("rId1", "https://example.com/one"),
            ("rId2", "https://example.com/two"),
            ("rId3", "https://example.com/three"),
        ],
    );
}

#[test]
fn rels_collect_hyperlink_map_preserves_id_to_target_mapping() {
    let rels_xml = r#"<Relationships xmlns="http://schemas.openxmlformats.org/package/2006/relationships">
  <Relationship Id="rId7" Type="http://schemas.openxmlformats.org/officeDocument/2006/relationships/hyperlink" Target="https://rust-lang.org"/>
</Relationships>"#;

    let result = collect_hyperlink_map(rels_xml.as_bytes());

    assert_hyperlink_map(result, &[("rId7", "https://rust-lang.org")]);
}

#[test]
fn rels_collect_hyperlink_map_handles_internal_target_mode() {
    let rels_xml = r#"<Relationships xmlns="http://schemas.openxmlformats.org/package/2006/relationships">
  <Relationship Id="rId1" Type="http://schemas.openxmlformats.org/officeDocument/2006/relationships/hyperlink" Target="other.docx" TargetMode="Internal"/>
</Relationships>"#;

    let result = collect_hyperlink_map(rels_xml.as_bytes());

    assert_hyperlink_map(result, &[("rId1", "other.docx")]);
}

#[test]
fn rels_collect_hyperlink_map_handles_external_target_mode() {
    let rels_xml = r#"<Relationships xmlns="http://schemas.openxmlformats.org/package/2006/relationships">
  <Relationship Id="rId1" Type="http://schemas.openxmlformats.org/officeDocument/2006/relationships/hyperlink" Target="https://example.com" TargetMode="External"/>
</Relationships>"#;

    let result = collect_hyperlink_map(rels_xml.as_bytes());

    assert_hyperlink_map(result, &[("rId1", "https://example.com")]);
}

#[test]
fn rels_collect_hyperlink_map_handles_missing_target_mode() {
    let rels_xml = r#"<Relationships xmlns="http://schemas.openxmlformats.org/package/2006/relationships">
  <Relationship Id="rId1" Type="http://schemas.openxmlformats.org/officeDocument/2006/relationships/hyperlink" Target="https://example.com"/>
</Relationships>"#;

    let result = collect_hyperlink_map(rels_xml.as_bytes());

    assert_hyperlink_map(result, &[("rId1", "https://example.com")]);
}

#[test]
fn rels_collect_hyperlink_map_returns_err_on_malformed_xml() {
    let result = collect_hyperlink_map("<broken>".as_bytes());

    match result {
        Err(DocxError::Parse { message, position }) => {
            assert_eq!(message, "malformed _rels/.rels");
            assert_eq!(position, None);
        }
        other => assert_eq!(format!("{other:?}"), "expected malformed rels parse error"),
    }
}

#[test]
fn find_styles_returns_target_when_present() {
    let rels_xml = minimal_styles_rels("word/styles.xml");

    let result = find_styles_target(rels_xml.as_bytes());

    match result {
        Ok(Some(path)) => assert_eq!(path, "word/styles.xml"),
        other => assert_eq!(format!("{other:?}"), "expected Some(word/styles.xml)"),
    }
}

#[test]
fn find_styles_returns_none_when_absent() {
    let rels_xml = minimal_rels("word/document.xml");

    let result = find_styles_target(rels_xml.as_bytes());

    match result {
        Ok(None) => {}
        other => assert_eq!(format!("{other:?}"), "expected Ok(None)"),
    }
}

#[test]
fn find_styles_rejects_dotdot() {
    let rels_xml = minimal_styles_rels("../etc/passwd");

    let result = find_styles_target(rels_xml.as_bytes());

    match result {
        Err(DocxError::Parse { message, position }) => {
            assert_eq!(
                message,
                "rels target contains parent reference: ../etc/passwd"
            );
            assert_eq!(position, None);
        }
        other => assert_eq!(format!("{other:?}"), "expected dotdot parse error"),
    }
}

#[test]
fn find_styles_ignores_external_target_mode() {
    let rels_xml = r#"<?xml version="1.0" encoding="UTF-8"?>
<Relationships xmlns="http://schemas.openxmlformats.org/package/2006/relationships">
  <Relationship Id="rId1" Type="http://schemas.openxmlformats.org/officeDocument/2006/relationships/styles" Target="word/styles.xml" TargetMode="External"/>
</Relationships>"#;

    let result = find_styles_target(rels_xml.as_bytes());

    match result {
        Ok(None) => {}
        other => assert_eq!(format!("{other:?}"), "expected Ok(None) for external"),
    }
}

#[test]
fn find_styles_returns_first_styles_match() {
    let rels_xml = r#"<?xml version="1.0" encoding="UTF-8"?>
<Relationships xmlns="http://schemas.openxmlformats.org/package/2006/relationships">
   <Relationship Id="rId1" Type="http://schemas.openxmlformats.org/officeDocument/2006/relationships/styles" Target="word/styles.xml"/>
   <Relationship Id="rId2" Type="http://schemas.openxmlformats.org/officeDocument/2006/relationships/styles" Target="word/styles2.xml"/>
</Relationships>"#;

    let result = find_styles_target(rels_xml.as_bytes());

    match result {
        Ok(Some(path)) => assert_eq!(path, "word/styles.xml"),
        other => assert_eq!(format!("{other:?}"), "expected first match"),
    }
}

#[test]
fn find_numbering_target_returns_target_when_present() {
    let rels_xml = minimal_numbering_rels("word/numbering.xml");

    let result = find_numbering_target(rels_xml.as_bytes());

    assert_eq!(result.ok(), Some(Some("word/numbering.xml".to_string())));
}

#[test]
fn find_numbering_target_returns_none_when_absent() {
    let rels_xml = minimal_rels("word/document.xml");

    let result = find_numbering_target(rels_xml.as_bytes());

    assert_eq!(result.ok(), Some(None));
}

#[test]
fn find_numbering_target_picks_numbering_among_multiple_relationships() {
    let rels_xml = r#"<?xml version="1.0" encoding="UTF-8"?>
<Relationships xmlns="http://schemas.openxmlformats.org/package/2006/relationships">
   <Relationship Id="rId1" Type="http://schemas.openxmlformats.org/officeDocument/2006/relationships/styles" Target="word/styles.xml"/>
   <Relationship Id="rId2" Type="http://schemas.openxmlformats.org/officeDocument/2006/relationships/numbering" Target="word/numbering.xml"/>
   <Relationship Id="rId3" Type="http://schemas.openxmlformats.org/officeDocument/2006/relationships/fontTable" Target="word/fontTable.xml"/>
</Relationships>"#;

    let result = find_numbering_target(rels_xml.as_bytes());

    assert_eq!(result.ok(), Some(Some("word/numbering.xml".to_string())));
}

#[test]
fn find_numbering_target_rejects_target_with_dotdot_segment() {
    let rels_xml = minimal_numbering_rels("../etc/passwd");

    let result = find_numbering_target(rels_xml.as_bytes());

    match result {
        Err(DocxError::Parse { message, position }) => {
            assert_eq!(
                message,
                "rels target contains parent reference: ../etc/passwd"
            );
            assert_eq!(position, None);
        }
        other => assert_eq!(format!("{other:?}"), "expected dotdot parse error"),
    }
}

#[test]
fn find_numbering_target_returns_none_on_empty_rels() {
    let rels_xml = r#"<?xml version="1.0" encoding="UTF-8"?>
<Relationships xmlns="http://schemas.openxmlformats.org/package/2006/relationships">
</Relationships>"#;

    let result = find_numbering_target(rels_xml.as_bytes());

    assert_eq!(result.ok(), Some(None));
}

#[test]
fn rels_collect_image_map_internal() {
    let rels_xml = minimal_image_rels("media/image1.png");

    let result = collect_image_map(rels_xml.as_bytes(), "word/document.xml");

    match result {
        Ok(map) => {
            assert_eq!(map.len(), 1);
            let rel = map.get("rId5").expect("rId5 must be present");
            assert_eq!(rel.target, "word/media/image1.png");
            assert!(!rel.is_external);
        }
        Err(err) => panic!("expected Ok, got {err:?}"),
    }
}

#[test]
fn rels_collect_image_map_external() {
    let rels_xml = r#"<?xml version="1.0" encoding="UTF-8"?>
<Relationships xmlns="http://schemas.openxmlformats.org/package/2006/relationships">
  <Relationship Id="rId5" Type="http://schemas.openxmlformats.org/officeDocument/2006/relationships/image" Target="https://example.com/img.png" TargetMode="External"/>
</Relationships>"#;

    let result = collect_image_map(rels_xml.as_bytes(), "word/document.xml");

    match result {
        Ok(map) => {
            assert_eq!(map.len(), 1);
            let rel = map.get("rId5").expect("rId5 must be present");
            assert_eq!(rel.target, "https://example.com/img.png");
            assert!(rel.is_external);
        }
        Err(err) => panic!("expected Ok, got {err:?}"),
    }
}

#[test]
fn rels_collect_image_map_rejects_dotdot_escaping_root() {
    let rels_xml = r#"<?xml version="1.0" encoding="UTF-8"?>
<Relationships xmlns="http://schemas.openxmlformats.org/package/2006/relationships">
  <Relationship Id="rId5" Type="http://schemas.openxmlformats.org/officeDocument/2006/relationships/image" Target="../../../etc/passwd"/>
</Relationships>"#;

    let result = collect_image_map(rels_xml.as_bytes(), "word/document.xml");

    match result {
        Err(DocxError::Parse { message, position }) => {
            assert_eq!(
                message,
                "rels target escapes package root: word/../../../etc/passwd"
            );
            assert_eq!(position, None);
        }
        other => panic!("expected Err(Parse), got {other:?}"),
    }
}

#[test]
fn rels_collect_image_map_normalizes_parent_segment_into_package_root() {
    let rels_xml = r#"<?xml version="1.0" encoding="UTF-8"?>
<Relationships xmlns="http://schemas.openxmlformats.org/package/2006/relationships">
  <Relationship Id="rId5" Type="http://schemas.openxmlformats.org/officeDocument/2006/relationships/image" Target="../media/image1.png"/>
</Relationships>"#;

    let result = collect_image_map(rels_xml.as_bytes(), "word/document.xml");

    match result {
        Ok(map) => {
            assert_eq!(map.len(), 1);
            let rel = map.get("rId5").expect("rId5 must be present");
            assert_eq!(rel.target, "media/image1.png");
            assert!(!rel.is_external);
        }
        Err(err) => panic!("expected Ok, got {err:?}"),
    }
}

#[test]
fn rels_collect_image_map_collapses_dot_and_double_dot_segments() {
    let rels_xml = r#"<?xml version="1.0" encoding="UTF-8"?>
<Relationships xmlns="http://schemas.openxmlformats.org/package/2006/relationships">
  <Relationship Id="rId5" Type="http://schemas.openxmlformats.org/officeDocument/2006/relationships/image" Target="./media/sub/../image1.png"/>
</Relationships>"#;

    let result = collect_image_map(rels_xml.as_bytes(), "word/document.xml");

    match result {
        Ok(map) => {
            let rel = map.get("rId5").expect("rId5 must be present");
            assert_eq!(rel.target, "word/media/image1.png");
            assert!(!rel.is_external);
        }
        Err(err) => panic!("expected Ok, got {err:?}"),
    }
}

#[test]
fn mod_collect_hyperlink_map_returns_empty_for_empty_relationships() {
    let rels_xml = r#"<Relationships xmlns="http://schemas.openxmlformats.org/package/2006/relationships"/>"#;

    let result = collect_hyperlink_map(rels_xml.as_bytes());

    assert_hyperlink_map(result, &[]);
}

#[test]
fn mod_collect_hyperlink_map_finds_strict_uri_hyperlink() {
    let rels_xml = r#"<Relationships xmlns="http://schemas.openxmlformats.org/package/2006/relationships">
  <Relationship Id="rId1" Type="http://purl.oclc.org/ooxml/officeDocument/relationships/hyperlink" Target="https://example.com"/>
</Relationships>"#;

    let result = collect_hyperlink_map(rels_xml.as_bytes());

    assert_hyperlink_map(result, &[("rId1", "https://example.com")]);
}

#[test]
fn mod_collect_hyperlink_map_finds_transitional_uri_hyperlink() {
    let rels_xml = r#"<Relationships xmlns="http://schemas.openxmlformats.org/package/2006/relationships">
  <Relationship Id="rId1" Type="http://schemas.openxmlformats.org/officeDocument/2006/relationships/hyperlink" Target="https://example.com"/>
</Relationships>"#;

    let result = collect_hyperlink_map(rels_xml.as_bytes());

    assert_hyperlink_map(result, &[("rId1", "https://example.com")]);
}

#[test]
fn mod_collect_hyperlink_map_skips_non_hyperlink_relationships() {
    let rels_xml = r#"<Relationships xmlns="http://schemas.openxmlformats.org/package/2006/relationships">
  <Relationship Id="rId1" Type="http://schemas.openxmlformats.org/officeDocument/2006/relationships/styles" Target="word/styles.xml"/>
  <Relationship Id="rId2" Type="http://schemas.openxmlformats.org/officeDocument/2006/relationships/image" Target="media/image1.png"/>
  <Relationship Id="rId3" Type="http://schemas.openxmlformats.org/officeDocument/2006/relationships/officeDocument" Target="word/document.xml"/>
</Relationships>"#;

    let result = collect_hyperlink_map(rels_xml.as_bytes());

    assert_hyperlink_map(result, &[]);
}

#[test]
fn mod_collect_hyperlink_map_collects_multiple_hyperlinks() {
    let rels_xml = r#"<Relationships xmlns="http://schemas.openxmlformats.org/package/2006/relationships">
  <Relationship Id="rId1" Type="http://schemas.openxmlformats.org/officeDocument/2006/relationships/hyperlink" Target="https://example.com/one"/>
  <Relationship Id="rId2" Type="http://purl.oclc.org/ooxml/officeDocument/relationships/hyperlink" Target="https://example.com/two"/>
  <Relationship Id="rId3" Type="http://schemas.openxmlformats.org/officeDocument/2006/relationships/hyperlink" Target="https://example.com/three"/>
</Relationships>"#;

    let result = collect_hyperlink_map(rels_xml.as_bytes());

    assert_hyperlink_map(
        result,
        &[
            ("rId1", "https://example.com/one"),
            ("rId2", "https://example.com/two"),
            ("rId3", "https://example.com/three"),
        ],
    );
}

#[test]
fn mod_collect_hyperlink_map_preserves_id_to_target_mapping() {
    let rels_xml = r#"<Relationships xmlns="http://schemas.openxmlformats.org/package/2006/relationships">
  <Relationship Id="rId7" Type="http://schemas.openxmlformats.org/officeDocument/2006/relationships/hyperlink" Target="https://rust-lang.org"/>
</Relationships>"#;

    let result = collect_hyperlink_map(rels_xml.as_bytes());

    assert_hyperlink_map(result, &[("rId7", "https://rust-lang.org")]);
}

#[test]
fn mod_collect_hyperlink_map_handles_internal_target_mode() {
    let rels_xml = r#"<Relationships xmlns="http://schemas.openxmlformats.org/package/2006/relationships">
  <Relationship Id="rId1" Type="http://schemas.openxmlformats.org/officeDocument/2006/relationships/hyperlink" Target="other.docx" TargetMode="Internal"/>
</Relationships>"#;

    let result = collect_hyperlink_map(rels_xml.as_bytes());

    assert_hyperlink_map(result, &[("rId1", "other.docx")]);
}

#[test]
fn mod_collect_hyperlink_map_handles_external_target_mode() {
    let rels_xml = r#"<Relationships xmlns="http://schemas.openxmlformats.org/package/2006/relationships">
  <Relationship Id="rId1" Type="http://schemas.openxmlformats.org/officeDocument/2006/relationships/hyperlink" Target="https://example.com" TargetMode="External"/>
</Relationships>"#;

    let result = collect_hyperlink_map(rels_xml.as_bytes());

    assert_hyperlink_map(result, &[("rId1", "https://example.com")]);
}

#[test]
fn mod_collect_hyperlink_map_handles_missing_target_mode() {
    let rels_xml = r#"<Relationships xmlns="http://schemas.openxmlformats.org/package/2006/relationships">
  <Relationship Id="rId1" Type="http://schemas.openxmlformats.org/officeDocument/2006/relationships/hyperlink" Target="https://example.com"/>
</Relationships>"#;

    let result = collect_hyperlink_map(rels_xml.as_bytes());

    assert_hyperlink_map(result, &[("rId1", "https://example.com")]);
}

#[test]
fn mod_collect_hyperlink_map_returns_err_on_malformed_xml() {
    let result = collect_hyperlink_map("<broken>".as_bytes());

    match result {
        Err(DocxError::Parse { message, position }) => {
            assert_eq!(message, "malformed _rels/.rels");
            assert_eq!(position, None);
        }
        other => assert_eq!(format!("{other:?}"), "expected malformed rels parse error"),
    }
}

#[test]
fn mod_collect_image_map_internal() {
    let rels_xml = minimal_image_rels("media/image1.png");

    let result = collect_image_map(rels_xml.as_bytes(), "word/document.xml");

    match result {
        Ok(map) => {
            assert_eq!(map.len(), 1);
            let rel = map.get("rId5").expect("rId5 must be present");
            assert_eq!(rel.target, "word/media/image1.png");
            assert!(!rel.is_external);
        }
        Err(err) => panic!("expected Ok, got {err:?}"),
    }
}

#[test]
fn mod_collect_image_map_external() {
    let rels_xml = r#"<?xml version="1.0" encoding="UTF-8"?>
<Relationships xmlns="http://schemas.openxmlformats.org/package/2006/relationships">
  <Relationship Id="rId5" Type="http://schemas.openxmlformats.org/officeDocument/2006/relationships/image" Target="https://example.com/img.png" TargetMode="External"/>
</Relationships>"#;

    let result = collect_image_map(rels_xml.as_bytes(), "word/document.xml");

    match result {
        Ok(map) => {
            assert_eq!(map.len(), 1);
            let rel = map.get("rId5").expect("rId5 must be present");
            assert_eq!(rel.target, "https://example.com/img.png");
            assert!(rel.is_external);
        }
        Err(err) => panic!("expected Ok, got {err:?}"),
    }
}

#[test]
fn mod_collect_image_map_rejects_dotdot_escaping_root() {
    let rels_xml = r#"<?xml version="1.0" encoding="UTF-8"?>
<Relationships xmlns="http://schemas.openxmlformats.org/package/2006/relationships">
  <Relationship Id="rId5" Type="http://schemas.openxmlformats.org/officeDocument/2006/relationships/image" Target="../../../etc/passwd"/>
</Relationships>"#;

    let result = collect_image_map(rels_xml.as_bytes(), "word/document.xml");

    match result {
        Err(DocxError::Parse { message, position }) => {
            assert_eq!(
                message,
                "rels target escapes package root: word/../../../etc/passwd"
            );
            assert_eq!(position, None);
        }
        other => panic!("expected Err(Parse), got {other:?}"),
    }
}

#[test]
fn mod_collect_image_map_normalizes_parent_segment_into_package_root() {
    let rels_xml = r#"<?xml version="1.0" encoding="UTF-8"?>
<Relationships xmlns="http://schemas.openxmlformats.org/package/2006/relationships">
  <Relationship Id="rId5" Type="http://schemas.openxmlformats.org/officeDocument/2006/relationships/image" Target="../media/image1.png"/>
</Relationships>"#;

    let result = collect_image_map(rels_xml.as_bytes(), "word/document.xml");

    match result {
        Ok(map) => {
            assert_eq!(map.len(), 1);
            let rel = map.get("rId5").expect("rId5 must be present");
            assert_eq!(rel.target, "media/image1.png");
            assert!(!rel.is_external);
        }
        Err(err) => panic!("expected Ok, got {err:?}"),
    }
}

#[test]
fn mod_collect_image_map_collapses_dot_and_double_dot_segments() {
    let rels_xml = r#"<?xml version="1.0" encoding="UTF-8"?>
<Relationships xmlns="http://schemas.openxmlformats.org/package/2006/relationships">
  <Relationship Id="rId5" Type="http://schemas.openxmlformats.org/officeDocument/2006/relationships/image" Target="./media/sub/../image1.png"/>
</Relationships>"#;

    let result = collect_image_map(rels_xml.as_bytes(), "word/document.xml");

    match result {
        Ok(map) => {
            let rel = map.get("rId5").expect("rId5 must be present");
            assert_eq!(rel.target, "word/media/image1.png");
            assert!(!rel.is_external);
        }
        Err(err) => panic!("expected Ok, got {err:?}"),
    }
}

#[test]
fn collect_hyperlink_map_accepts_non_empty_relationship_element() {
    let rels_xml = r#"<Relationships>
  <Relationship Id="rId1" Type="http://example.com/hyperlink" Target="https://example.com"></Relationship>
</Relationships>"#;

    let result = collect_hyperlink_map(rels_xml.as_bytes());

    assert_hyperlink_map(result, &[("rId1", "https://example.com")]);
}

#[test]
fn collect_hyperlink_map_rejects_unexpected_closing_element() {
    let result = collect_hyperlink_map("</Relationships>".as_bytes());

    assert_hyperlinks_parse_error(result, "malformed _rels/.rels");
}

#[test]
fn collect_hyperlink_map_rejects_unclosed_relationships_element() {
    let result = collect_hyperlink_map("<Relationships>".as_bytes());

    assert_hyperlinks_parse_error(result, "malformed _rels/.rels");
}

#[test]
fn collect_hyperlink_map_rejects_xml_parser_error() {
    let result = collect_hyperlink_map("<Relationships><".as_bytes());

    assert_hyperlinks_parse_error(result, "malformed _rels/.rels");
}

#[test]
fn collect_hyperlink_map_rejects_malformed_relationship_attribute() {
    let rels_xml = r#"<Relationships xmlns="http://schemas.openxmlformats.org/package/2006/relationships">
  <Relationship Id="rId1" Type="http://schemas.openxmlformats.org/officeDocument/2006/relationships/officeDocument" Target=word/document.xml/>
</Relationships>"#;

    let result = collect_hyperlink_map(rels_xml.as_bytes());

    assert_hyperlinks_parse_error(
        result,
        "malformed _rels/.rels: position 120: attribute value must be enclosed in `\"` or `'`",
    );
}

#[test]
fn collect_hyperlink_map_rejects_bad_attribute_entity() {
    let rels_xml = r#"<Relationships xmlns="http://schemas.openxmlformats.org/package/2006/relationships">
  <Relationship Id="rId1" Type="http://schemas.openxmlformats.org/officeDocument/2006/relationships/officeDocument" Target="word/&bogus;.xml"/>
</Relationships>"#;

    let result = collect_hyperlink_map(rels_xml.as_bytes());

    assert_hyperlinks_parse_error(
        result,
        "malformed _rels/.rels: at 6..11: unrecognized entity `bogus`",
    );
}

#[test]
fn hyperlinks_collect_hyperlink_map_returns_empty_for_empty_relationships() {
    let rels_xml = r#"<Relationships xmlns="http://schemas.openxmlformats.org/package/2006/relationships"/>"#;

    let result = collect_hyperlink_map(rels_xml.as_bytes());

    assert_hyperlink_map(result, &[]);
}

#[test]
fn hyperlinks_collect_hyperlink_map_finds_strict_uri_hyperlink() {
    let rels_xml = r#"<Relationships xmlns="http://schemas.openxmlformats.org/package/2006/relationships">
  <Relationship Id="rId1" Type="http://purl.oclc.org/ooxml/officeDocument/relationships/hyperlink" Target="https://example.com"/>
</Relationships>"#;

    let result = collect_hyperlink_map(rels_xml.as_bytes());

    assert_hyperlink_map(result, &[("rId1", "https://example.com")]);
}

#[test]
fn hyperlinks_collect_hyperlink_map_finds_transitional_uri_hyperlink() {
    let rels_xml = r#"<Relationships xmlns="http://schemas.openxmlformats.org/package/2006/relationships">
  <Relationship Id="rId1" Type="http://schemas.openxmlformats.org/officeDocument/2006/relationships/hyperlink" Target="https://example.com"/>
</Relationships>"#;

    let result = collect_hyperlink_map(rels_xml.as_bytes());

    assert_hyperlink_map(result, &[("rId1", "https://example.com")]);
}

#[test]
fn hyperlinks_collect_hyperlink_map_skips_non_hyperlink_relationships() {
    let rels_xml = r#"<Relationships xmlns="http://schemas.openxmlformats.org/package/2006/relationships">
  <Relationship Id="rId1" Type="http://schemas.openxmlformats.org/officeDocument/2006/relationships/styles" Target="word/styles.xml"/>
  <Relationship Id="rId2" Type="http://schemas.openxmlformats.org/officeDocument/2006/relationships/image" Target="media/image1.png"/>
  <Relationship Id="rId3" Type="http://schemas.openxmlformats.org/officeDocument/2006/relationships/officeDocument" Target="word/document.xml"/>
</Relationships>"#;

    let result = collect_hyperlink_map(rels_xml.as_bytes());

    assert_hyperlink_map(result, &[]);
}

#[test]
fn hyperlinks_collect_hyperlink_map_collects_multiple_hyperlinks() {
    let rels_xml = r#"<Relationships xmlns="http://schemas.openxmlformats.org/package/2006/relationships">
  <Relationship Id="rId1" Type="http://schemas.openxmlformats.org/officeDocument/2006/relationships/hyperlink" Target="https://example.com/one"/>
  <Relationship Id="rId2" Type="http://purl.oclc.org/ooxml/officeDocument/relationships/hyperlink" Target="https://example.com/two"/>
  <Relationship Id="rId3" Type="http://schemas.openxmlformats.org/officeDocument/2006/relationships/hyperlink" Target="https://example.com/three"/>
</Relationships>"#;

    let result = collect_hyperlink_map(rels_xml.as_bytes());

    assert_hyperlink_map(
        result,
        &[
            ("rId1", "https://example.com/one"),
            ("rId2", "https://example.com/two"),
            ("rId3", "https://example.com/three"),
        ],
    );
}

#[test]
fn hyperlinks_collect_hyperlink_map_preserves_id_to_target_mapping() {
    let rels_xml = r#"<Relationships xmlns="http://schemas.openxmlformats.org/package/2006/relationships">
  <Relationship Id="rId7" Type="http://schemas.openxmlformats.org/officeDocument/2006/relationships/hyperlink" Target="https://rust-lang.org"/>
</Relationships>"#;

    let result = collect_hyperlink_map(rels_xml.as_bytes());

    assert_hyperlink_map(result, &[("rId7", "https://rust-lang.org")]);
}

#[test]
fn hyperlinks_collect_hyperlink_map_handles_internal_target_mode() {
    let rels_xml = r#"<Relationships xmlns="http://schemas.openxmlformats.org/package/2006/relationships">
  <Relationship Id="rId1" Type="http://schemas.openxmlformats.org/officeDocument/2006/relationships/hyperlink" Target="other.docx" TargetMode="Internal"/>
</Relationships>"#;

    let result = collect_hyperlink_map(rels_xml.as_bytes());

    assert_hyperlink_map(result, &[("rId1", "other.docx")]);
}

#[test]
fn hyperlinks_collect_hyperlink_map_handles_external_target_mode() {
    let rels_xml = r#"<Relationships xmlns="http://schemas.openxmlformats.org/package/2006/relationships">
  <Relationship Id="rId1" Type="http://schemas.openxmlformats.org/officeDocument/2006/relationships/hyperlink" Target="https://example.com" TargetMode="External"/>
</Relationships>"#;

    let result = collect_hyperlink_map(rels_xml.as_bytes());

    assert_hyperlink_map(result, &[("rId1", "https://example.com")]);
}

#[test]
fn hyperlinks_collect_hyperlink_map_handles_missing_target_mode() {
    let rels_xml = r#"<Relationships xmlns="http://schemas.openxmlformats.org/package/2006/relationships">
  <Relationship Id="rId1" Type="http://schemas.openxmlformats.org/officeDocument/2006/relationships/hyperlink" Target="https://example.com"/>
</Relationships>"#;

    let result = collect_hyperlink_map(rels_xml.as_bytes());

    assert_hyperlink_map(result, &[("rId1", "https://example.com")]);
}

#[test]
fn hyperlinks_collect_hyperlink_map_returns_err_on_malformed_xml() {
    let result = collect_hyperlink_map("<broken>".as_bytes());

    match result {
        Err(DocxError::Parse { message, position }) => {
            assert_eq!(message, "malformed _rels/.rels");
            assert_eq!(position, None);
        }
        other => assert_eq!(format!("{other:?}"), "expected malformed rels parse error"),
    }
}

#[test]
fn collect_image_map_accepts_non_empty_relationship_element() {
    let rels_xml = r#"<Relationships>
  <Relationship Id="rId1" Type="http://example.com/image" Target="media/image.png" Extra="ignored"></Relationship>
</Relationships>"#;

    let result = collect_image_map(rels_xml.as_bytes(), "word/document.xml");

    match result {
        Ok(map) => assert_eq!(
            map.get("rId1")
                .map(|rel| (rel.target.as_str(), rel.is_external)),
            Some(("word/media/image.png", false))
        ),
        Err(err) => assert_eq!(format!("{err:?}"), "expected image map"),
    }
}

#[test]
fn collect_image_map_rejects_unexpected_closing_element() {
    let result = collect_image_map("</Relationships>".as_bytes(), "word/document.xml");

    assert_images_parse_error(result, "malformed _rels/.rels");
}

#[test]
fn collect_image_map_rejects_unclosed_relationships_element() {
    let result = collect_image_map("<Relationships>".as_bytes(), "word/document.xml");

    assert_images_parse_error(result, "malformed _rels/.rels");
}

#[test]
fn collect_image_map_rejects_xml_parser_error() {
    let result = collect_image_map("<Relationships><".as_bytes(), "word/document.xml");

    assert_images_parse_error(result, "malformed _rels/.rels");
}

#[test]
fn collect_image_map_rejects_malformed_relationship_attribute() {
    let rels_xml = r#"<Relationships xmlns="http://schemas.openxmlformats.org/package/2006/relationships">
  <Relationship Id="rId1" Type="http://schemas.openxmlformats.org/officeDocument/2006/relationships/officeDocument" Target=word/document.xml/>
</Relationships>"#;

    let result = collect_image_map(rels_xml.as_bytes(), "word/document.xml");

    assert_images_parse_error(
        result,
        "malformed _rels/.rels: position 120: attribute value must be enclosed in `\"` or `'`",
    );
}

#[test]
fn collect_image_map_rejects_bad_attribute_entity() {
    let rels_xml = r#"<Relationships xmlns="http://schemas.openxmlformats.org/package/2006/relationships">
  <Relationship Id="rId1" Type="http://schemas.openxmlformats.org/officeDocument/2006/relationships/officeDocument" Target="word/&bogus;.xml"/>
</Relationships>"#;

    let result = collect_image_map(rels_xml.as_bytes(), "word/document.xml");

    assert_images_parse_error(
        result,
        "malformed _rels/.rels: at 6..11: unrecognized entity `bogus`",
    );
}

#[test]
fn images_collect_image_map_internal() {
    let rels_xml = minimal_image_rels("media/image1.png");

    let result = collect_image_map(rels_xml.as_bytes(), "word/document.xml");

    match result {
        Ok(map) => {
            assert_eq!(map.len(), 1);
            let rel = map.get("rId5").expect("rId5 must be present");
            assert_eq!(rel.target, "word/media/image1.png");
            assert!(!rel.is_external);
        }
        Err(err) => panic!("expected Ok, got {err:?}"),
    }
}

#[test]
fn images_collect_image_map_external() {
    let rels_xml = r#"<?xml version="1.0" encoding="UTF-8"?>
<Relationships xmlns="http://schemas.openxmlformats.org/package/2006/relationships">
  <Relationship Id="rId5" Type="http://schemas.openxmlformats.org/officeDocument/2006/relationships/image" Target="https://example.com/img.png" TargetMode="External"/>
</Relationships>"#;

    let result = collect_image_map(rels_xml.as_bytes(), "word/document.xml");

    match result {
        Ok(map) => {
            assert_eq!(map.len(), 1);
            let rel = map.get("rId5").expect("rId5 must be present");
            assert_eq!(rel.target, "https://example.com/img.png");
            assert!(rel.is_external);
        }
        Err(err) => panic!("expected Ok, got {err:?}"),
    }
}

#[test]
fn images_collect_image_map_rejects_dotdot_escaping_root() {
    let rels_xml = r#"<?xml version="1.0" encoding="UTF-8"?>
<Relationships xmlns="http://schemas.openxmlformats.org/package/2006/relationships">
  <Relationship Id="rId5" Type="http://schemas.openxmlformats.org/officeDocument/2006/relationships/image" Target="../../../etc/passwd"/>
</Relationships>"#;

    let result = collect_image_map(rels_xml.as_bytes(), "word/document.xml");

    match result {
        Err(DocxError::Parse { message, position }) => {
            assert_eq!(
                message,
                "rels target escapes package root: word/../../../etc/passwd"
            );
            assert_eq!(position, None);
        }
        other => panic!("expected Err(Parse), got {other:?}"),
    }
}

#[test]
fn images_collect_image_map_normalizes_parent_segment_into_package_root() {
    let rels_xml = r#"<?xml version="1.0" encoding="UTF-8"?>
<Relationships xmlns="http://schemas.openxmlformats.org/package/2006/relationships">
  <Relationship Id="rId5" Type="http://schemas.openxmlformats.org/officeDocument/2006/relationships/image" Target="../media/image1.png"/>
</Relationships>"#;

    let result = collect_image_map(rels_xml.as_bytes(), "word/document.xml");

    match result {
        Ok(map) => {
            assert_eq!(map.len(), 1);
            let rel = map.get("rId5").expect("rId5 must be present");
            assert_eq!(rel.target, "media/image1.png");
            assert!(!rel.is_external);
        }
        Err(err) => panic!("expected Ok, got {err:?}"),
    }
}

#[test]
fn images_collect_image_map_collapses_dot_and_double_dot_segments() {
    let rels_xml = r#"<?xml version="1.0" encoding="UTF-8"?>
<Relationships xmlns="http://schemas.openxmlformats.org/package/2006/relationships">
  <Relationship Id="rId5" Type="http://schemas.openxmlformats.org/officeDocument/2006/relationships/image" Target="./media/sub/../image1.png"/>
</Relationships>"#;

    let result = collect_image_map(rels_xml.as_bytes(), "word/document.xml");

    match result {
        Ok(map) => {
            let rel = map.get("rId5").expect("rId5 must be present");
            assert_eq!(rel.target, "word/media/image1.png");
            assert!(!rel.is_external);
        }
        Err(err) => panic!("expected Ok, got {err:?}"),
    }
}

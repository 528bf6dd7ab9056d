use docx_reader::content_types::parse;
use docx_reader::events::DocxError;

#[test]
fn default_extension_lookup() {
    let xml = br#"<?xml version="1.0" encoding="UTF-8" standalone="yes"?>
<Types xmlns="http://schemas.openxmlformats.org/package/2006/content-types">
  <Default Extension="rels" ContentType="application/vnd.openxmlformats-package.relationships+xml"/>
  <Default Extension="png" ContentType="image/png"/>
</Types>"#;
    let ct = parse(xml).expect("parse should succeed");
    assert_eq!(ct.lookup("word/media/image1.png"), Some("image/png"));
}

#[test]
fn override_beats_default() {
    let xml = br#"<?xml version="1.0" encoding="UTF-8" standalone="yes"?>
<Types xmlns="http://schemas.openxmlformats.org/package/2006/content-types">
  <Default Extension="xml" ContentType="application/xml"/>
  <Override PartName="/word/document.xml" ContentType="application/vnd.openxmlformats-officedocument.wordprocessingml.document.main+xml"/>
</Types>"#;
    let ct = parse(xml).expect("parse should succeed");
    assert_eq!(
        ct.lookup("word/document.xml"),
        Some(
            "application/vnd.openxmlformats-officedocument.wordprocessingml.document.main+xml"
        )
    );
}

#[test]
fn default_when_empty() {
    let ct = parse(&[]).expect("parse of empty input should succeed");
    assert_eq!(ct.lookup("word/media/image1.png"), None);
    assert_eq!(ct.lookup("word/document.xml"), None);
}

#[test]
fn extension_lookup_is_case_insensitive() {
    let xml = br#"<Types xmlns="http://schemas.openxmlformats.org/package/2006/content-types">
  <Default Extension="PNG" ContentType="image/png"/>
</Types>"#;
    let ct = parse(xml).expect("parse should succeed");
    assert_eq!(ct.lookup("word/media/photo.png"), Some("image/png"));
    assert_eq!(ct.lookup("word/media/photo.PNG"), Some("image/png"));
}

#[test]
fn lookup_returns_none_for_unknown_extension() {
    let xml = br#"<Types xmlns="http://schemas.openxmlformats.org/package/2006/content-types">
  <Default Extension="png" ContentType="image/png"/>
</Types>"#;
    let ct = parse(xml).expect("parse should succeed");
    assert_eq!(ct.lookup("word/media/file.docx"), None);
}

#[test]
fn override_strips_leading_slash_from_part_name() {
    let xml = br#"<Types xmlns="http://schemas.openxmlformats.org/package/2006/content-types">
  <Override PartName="/word/document.xml" ContentType="application/vnd.docx"/>
</Types>"#;
    let ct = parse(xml).expect("parse should succeed");
    assert_eq!(ct.lookup("word/document.xml"), Some("application/vnd.docx"));
    assert_eq!(ct.lookup("/word/document.xml"), None);
}

#[test]
fn non_self_closing_elements_are_parsed() {
    let xml = br#"<?xml version="1.0"?>
<Types xmlns="http://schemas.openxmlformats.org/package/2006/content-types">
  <Default Extension="png" ContentType="image/png"></Default>
  <Override PartName="/word/document.xml" ContentType="application/vnd.docx"></Override>
</Types>"#;
    let ct = parse(xml).expect("parse should succeed");
    assert_eq!(ct.lookup("word/media/image1.png"), Some("image/png"));
    assert_eq!(ct.lookup("word/document.xml"), Some("application/vnd.docx"));
}

#[test]
fn malformed_xml_returns_error() {
    let result = parse(b"<Types><broken>");
    assert!(matches!(result, Err(DocxError::Parse { .. })));
}

#[test]
fn multiple_defaults_and_overrides() {
    let xml = br#"<Types xmlns="http://schemas.openxmlformats.org/package/2006/content-types">
  <Default Extension="rels" ContentType="application/vnd.rels"/>
  <Default Extension="xml" ContentType="application/xml"/>
  <Default Extension="png" ContentType="image/png"/>
  <Default Extension="jpeg" ContentType="image/jpeg"/>
  <Override PartName="/word/document.xml" ContentType="application/vnd.docx"/>
  <Override PartName="/word/styles.xml" ContentType="application/vnd.styles"/>
</Types>"#;
    let ct = parse(xml).expect("parse should succeed");
    assert_eq!(ct.lookup("word/media/image1.png"), Some("image/png"));
    assert_eq!(ct.lookup("word/media/photo.jpeg"), Some("image/jpeg"));
    assert_eq!(ct.lookup("word/document.xml"), Some("application/vnd.docx"));
    assert_eq!(ct.lookup("word/styles.xml"), Some("application/vnd.styles"));
    assert_eq!(ct.lookup("word/theme/theme1.xml"), Some("application/xml"));
}

#[test]
fn lookup_no_extension_returns_none() {
    let xml = br#"<Types xmlns="http://schemas.openxmlformats.org/package/2006/content-types">
  <Default Extension="xml" ContentType="application/xml"/>
</Types>"#;
    let ct = parse(xml).expect("parse should succeed");
    assert_eq!(ct.lookup("noextension"), None);
}

#[test]
fn lookup_extensionless_part_does_not_match_default_with_same_name() {
    let xml = br#"<Types xmlns="http://schemas.openxmlformats.org/package/2006/content-types">
  <Default Extension="png" ContentType="image/png"/>
</Types>"#;
    let ct = parse(xml).expect("parse should succeed");
    assert_eq!(ct.lookup("png"), None);
    assert_eq!(ct.lookup("media/png"), None);
    assert_eq!(ct.lookup("dotted.dir/noext"), None);
    assert_eq!(ct.lookup("trailing."), None);
}

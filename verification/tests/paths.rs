use docx_reader::events::DocxError;
use docx_reader::paths::{derive_part_rels_path, normalize_relative_target, resolve_relative_target};

#[test]
fn derive_part_rels_path_handles_root_part() {
    let result = derive_part_rels_path("document.xml");

    assert_eq!(result, "_rels/document.xml.rels");
}

#[test]
fn resolve_relative_target_handles_package_absolute_target() {
    let result = resolve_relative_target("word/document.xml", "/media/image.png");

    assert_eq!(result, "media/image.png");
}

#[test]
fn resolve_relative_target_handles_root_part() {
    let result = resolve_relative_target("document.xml", "styles.xml");

    assert_eq!(result, "styles.xml");
}

#[test]
fn normalize_relative_target_rejects_package_root_escape() {
    let result = normalize_relative_target("word/document.xml", "../../escape.xml");

    match result {
        Err(DocxError::Parse { message, position }) => {
            assert_eq!(
                message,
                "rels target escapes package root: word/../../escape.xml"
            );
            assert_eq!(position, None);
        }
        other => assert_eq!(format!("{other:?}"), "expected package-root escape error"),
    }
}

#[test]
fn paths_derive_part_rels_path_with_directory() {
    let result = derive_part_rels_path("word/document.xml");
    assert_eq!(result, "word/_rels/document.xml.rels");
}

#[test]
fn paths_derive_part_rels_path_without_directory() {
    let result = derive_part_rels_path("foo");
    assert_eq!(result, "_rels/foo.rels");
}

#[test]
fn paths_resolve_relative_target_with_directory() {
    let result = resolve_relative_target("word/document.xml", "styles.xml");
    assert_eq!(result, "word/styles.xml");
}

#[test]
fn paths_resolve_relative_target_strips_leading_slash() {
    let result = resolve_relative_target("word/document.xml", "/word/styles.xml");
    assert_eq!(result, "word/styles.xml");
}

#[test]
fn paths_resolve_relative_target_without_directory() {
    let result = resolve_relative_target("document.xml", "styles.xml");
    assert_eq!(result, "styles.xml");
}

#[test]
fn rels_derive_part_rels_path_with_directory() {
    let result = derive_part_rels_path("word/document.xml");
    assert_eq!(result, "word/_rels/document.xml.rels");
}

#[test]
fn rels_derive_part_rels_path_without_directory() {
    let result = derive_part_rels_path("foo");
    assert_eq!(result, "_rels/foo.rels");
}

#[test]
fn rels_resolve_relative_target_with_directory() {
    let result = resolve_relative_target("word/document.xml", "styles.xml");
    assert_eq!(result, "word/styles.xml");
}

#[test]
fn rels_resolve_relative_target_strips_leading_slash() {
    let result = resolve_relative_target("word/document.xml", "/word/styles.xml");
    assert_eq!(result, "word/styles.xml");
}

#[test]
fn rels_resolve_relative_target_without_directory() {
    let result = resolve_relative_target("document.xml", "styles.xml");
    assert_eq!(result, "styles.xml");
}

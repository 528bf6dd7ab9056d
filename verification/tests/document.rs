use docx_reader::document::{DocumentReader, DocxData, ParagraphProps, RunProps};
use docx_reader::styles::StyleClassification;
use docx_reader::events::{Color, Event, ImageSource, ListStyleType, TableHeaderScope, TextAlignment, TextStyleKind};
use docx_reader::numbering::{parse_numbering, MinimalNumbering};
use docx_reader::rels::{HyperlinkMap, ImageMap, ImageRel};
use docx_reader::styles::StyleList;

fn asset_source(id: &str) -> ImageSource {
    ImageSource::Asset { asset_id: id.to_string() }
}

fn styles_xml(body: &str) -> String {
    format!(
        r#"<?xml version="1.0" encoding="UTF-8"?>
<w:styles xmlns:w="http://schemas.openxmlformats.org/wordprocessingml/2006/main">
{body}
</w:styles>"#
    )
}

fn make_docx_data(styles_body: &str) -> DocxData {
    let xml = styles_xml(styles_body);
    let style_list = StyleList::parse(xml.into_bytes()).expect("valid styles XML");
    DocxData {
        style_list,
        hyperlink_map: HyperlinkMap::default(),
        numbering: MinimalNumbering::new(),
        image_map: ImageMap::default(),
    }
}

fn numbering_xml(body: &str) -> String {
    format!(
        r#"<?xml version="1.0" encoding="UTF-8"?>
<w:numbering xmlns:w="http://schemas.openxmlformats.org/wordprocessingml/2006/main">
{body}
</w:numbering>"#
    )
}

fn decimal_numbering() -> MinimalNumbering {
    let xml = numbering_xml(
        r#"<w:abstractNum w:abstractNumId="1">
    <w:lvl w:ilvl="0"><w:numFmt w:val="decimal"/></w:lvl>
    <w:lvl w:ilvl="1"><w:numFmt w:val="decimal"/></w:lvl>
</w:abstractNum>
<w:num w:numId="1"><w:abstractNumId w:val="1"/></w:num>"#,
    );
    parse_numbering(xml.into_bytes()).expect("valid numbering XML")
}

fn two_decimal_numbering() -> MinimalNumbering {
    let xml = numbering_xml(
        r#"<w:abstractNum w:abstractNumId="1">
    <w:lvl w:ilvl="0"><w:numFmt w:val="decimal"/></w:lvl>
    <w:lvl w:ilvl="1"><w:numFmt w:val="decimal"/></w:lvl>
</w:abstractNum>
<w:abstractNum w:abstractNumId="2">
    <w:lvl w:ilvl="0"><w:numFmt w:val="decimal"/></w:lvl>
    <w:lvl w:ilvl="1"><w:numFmt w:val="decimal"/></w:lvl>
</w:abstractNum>
<w:num w:numId="1"><w:abstractNumId w:val="1"/></w:num>
<w:num w:numId="2"><w:abstractNumId w:val="2"/></w:num>"#,
    );
    parse_numbering(xml.into_bytes()).expect("valid numbering XML")
}

fn reader_over(document_xml: &str, data: DocxData) -> DocumentReader {
    DocumentReader::from_xml(document_xml.as_bytes().to_vec(), data)
}

fn make_reader_with_numbering(document_xml: &str, numbering: MinimalNumbering) -> DocumentReader {
    let data = DocxData {
        style_list: StyleList::default(),
        hyperlink_map: HyperlinkMap::default(),
        numbering,
        image_map: ImageMap::default(),
    };
    reader_over(document_xml, data)
}

fn list_paragraph(num_id: u32, ilvl: u32, text: &str) -> String {
    format!(
        r#"<w:p><w:pPr><w:numPr><w:numId w:val="{num_id}"/><w:ilvl w:val="{ilvl}"/></w:numPr></w:pPr><w:r><w:t>{text}</w:t></w:r></w:p>"#
    )
}

fn plain_paragraph(text: &str) -> String {
    format!("<w:p><w:r><w:t>{text}</w:t></w:r></w:p>")
}

fn document_with_body(body: &str) -> String {
    format!(
        r#"<?xml version="1.0" encoding="UTF-8"?>
<w:document xmlns:w="http://schemas.openxmlformats.org/wordprocessingml/2006/main">
  <w:body>{body}</w:body>
</w:document>"#
    )
}

fn make_reader_with_styles(document_xml: &str, styles_body: &str) -> DocumentReader {
    reader_over(document_xml, make_docx_data(styles_body))
}

fn collect_events(reader: &mut DocumentReader) -> Vec<Event> {
    let mut events = Vec::new();
    loop {
        match reader.next_event() {
            Ok(Some(event)) => {
                if matches!(event, Event::EndDocument) {
                    events.push(event);
                    break;
                }
                events.push(event);
            }
            Ok(None) => break,
            Err(err) => panic!("unexpected error: {err:?}"),
        }
    }
    events
}

fn make_reader(document_xml: &str) -> DocumentReader {
    let data = DocxData {
        style_list: StyleList::default(),
        hyperlink_map: HyperlinkMap::default(),
        numbering: MinimalNumbering::new(),
        image_map: ImageMap::default(),
    };
    reader_over(document_xml, data)
}

fn make_reader_with_hyperlinks(document_xml: &str, hyperlink_map: HyperlinkMap) -> DocumentReader {
    let data = DocxData {
        style_list: StyleList::default(),
        hyperlink_map,
        numbering: MinimalNumbering::new(),
        image_map: ImageMap::default(),
    };
    reader_over(document_xml, data)
}

fn document_with_hyperlink_body(body: &str) -> String {
    format!(
        r#"<?xml version="1.0" encoding="UTF-8"?>
<w:document xmlns:w="http://schemas.openxmlformats.org/wordprocessingml/2006/main"
    xmlns:r="http://schemas.openxmlformats.org/officeDocument/2006/relationships">
  <w:body>{body}</w:body>
</w:document>"#
    )
}

fn make_reader_with_images(document_xml: &str, image_map: ImageMap) -> DocumentReader {
    let data = DocxData {
        style_list: StyleList::default(),
        hyperlink_map: HyperlinkMap::default(),
        numbering: MinimalNumbering::new(),
        image_map,
    };
    reader_over(document_xml, data)
}

fn make_reader_with_styles_and_numbering(
    document_xml: &str,
    styles_body: &str,
    numbering: MinimalNumbering,
) -> DocumentReader {
    let xml_str = styles_xml(styles_body);
    let style_list = StyleList::parse(xml_str.into_bytes()).expect("valid styles XML");
    let data = DocxData {
        style_list,
        hyperlink_map: HyperlinkMap::default(),
        numbering,
        image_map: ImageMap::default(),
    };
    reader_over(document_xml, data)
}

fn image_rel(target: &str, is_external: bool) -> ImageRel {
    ImageRel {
        target: target.to_string(),
        is_external,
    }
}

fn image_event(source: ImageSource, alt: Option<&str>) -> Event {
    Event::Image {
        alt: alt.map(str::to_string),
        decorative: false,
        id: None,
        source,
        title: None,
    }
}

fn drawing_document(drawing_inner: &str) -> String {
    format!(
        r#"<?xml version="1.0" encoding="UTF-8"?>
<w:document xmlns:w="http://schemas.openxmlformats.org/wordprocessingml/2006/main"
    xmlns:r="http://schemas.openxmlformats.org/officeDocument/2006/relationships"
    xmlns:a="http://schemas.openxmlformats.org/drawingml/2006/main"
    xmlns:pic="http://schemas.openxmlformats.org/drawingml/2006/picture"
    xmlns:wp="http://schemas.openxmlformats.org/drawingml/2006/wordprocessingDrawing">
  <w:body><w:p><w:r><w:drawing>{drawing_inner}</w:drawing></w:r></w:p></w:body>
</w:document>"#
    )
}

fn picture_with_blip(doc_pr_attrs: &str, blip: &str) -> String {
    format!(
        "<wp:inline>
  <wp:docPr {doc_pr_attrs}/>
  <a:graphic><a:graphicData><pic:pic><pic:blipFill>{blip}</pic:blipFill></pic:pic></a:graphicData></a:graphic>
</wp:inline>"
    )
}

fn start_doc() -> Event {
    Event::StartDocument {
        id: None,
        language: None,
        metadata: None,
    }
}

fn start_para() -> Event {
    Event::StartParagraph {
        alignment: None,
        id: None,
    }
}

fn start_cell(colspan: Option<u32>) -> Event {
    Event::StartTableCell {
        colspan,
        rowspan: None,
        id: None,
    }
}

fn start_header(colspan: Option<u32>) -> Event {
    Event::StartTableHeader {
        abbr: None,
        colspan,
        id: None,
        rowspan: None,
        scope: Some(TableHeaderScope::Column),
    }
}

#[test]
fn parse_p_empty() {
    let doc = document_with_body("<w:p></w:p>");
    let mut reader = make_reader(&doc);
    let events = collect_events(&mut reader);
    assert_eq!(
        events,
        vec![
            start_doc(),
            start_para(),
            Event::EndParagraph,
            Event::EndDocument
        ]
    );
}

#[test]
fn parse_p_one_styled_run() {
    let doc = document_with_body("<w:p><w:r><w:rPr><w:b/></w:rPr><w:t>bold</w:t></w:r></w:p>");
    let mut reader = make_reader(&doc);
    let events = collect_events(&mut reader);
    assert_eq!(
        events,
        vec![
            start_doc(),
            start_para(),
            Event::StartTextStyle {
                kind: TextStyleKind::Bold,
                id: None,
            },
            Event::Text {
                content: "bold".to_string(),
            },
            Event::EndTextStyle,
            Event::EndParagraph,
            Event::EndDocument,
        ]
    );
}

#[test]
fn b_cs_alone_does_not_emit_bold() {
    let doc =
        document_with_body("<w:p><w:r><w:rPr><w:bCs/></w:rPr><w:t>text</w:t></w:r></w:p>");
    let mut reader = make_reader(&doc);

    assert_eq!(
        collect_events(&mut reader),
        vec![
            start_doc(),
            start_para(),
            Event::Text {
                content: "text".to_string(),
            },
            Event::EndParagraph,
            Event::EndDocument,
        ]
    );
}

#[test]
fn i_cs_alone_does_not_emit_italic() {
    let doc =
        document_with_body("<w:p><w:r><w:rPr><w:iCs/></w:rPr><w:t>text</w:t></w:r></w:p>");
    let mut reader = make_reader(&doc);

    assert_eq!(
        collect_events(&mut reader),
        vec![
            start_doc(),
            start_para(),
            Event::Text {
                content: "text".to_string(),
            },
            Event::EndParagraph,
            Event::EndDocument,
        ]
    );
}

#[test]
fn b_with_b_cs_still_emits_bold_once() {
    let doc = document_with_body(
        "<w:p><w:r><w:rPr><w:b/><w:bCs/></w:rPr><w:t>bold</w:t></w:r></w:p>",
    );
    let mut reader = make_reader(&doc);

    assert_eq!(
        collect_events(&mut reader),
        vec![
            start_doc(),
            start_para(),
            Event::StartTextStyle {
                kind: TextStyleKind::Bold,
                id: None,
            },
            Event::Text {
                content: "bold".to_string(),
            },
            Event::EndTextStyle,
            Event::EndParagraph,
            Event::EndDocument,
        ]
    );
}

#[test]
fn b_with_b_cs_off_still_emits_bold() {
    let doc = document_with_body(
        r#"<w:p><w:r><w:rPr><w:b/><w:bCs w:val="false"/></w:rPr><w:t>bold</w:t></w:r></w:p>"#,
    );
    let mut reader = make_reader(&doc);

    assert_eq!(
        collect_events(&mut reader),
        vec![
            start_doc(),
            start_para(),
            Event::StartTextStyle {
                kind: TextStyleKind::Bold,
                id: None,
            },
            Event::Text {
                content: "bold".to_string(),
            },
            Event::EndTextStyle,
            Event::EndParagraph,
            Event::EndDocument,
        ]
    );
}

#[test]
fn i_with_i_cs_still_emits_italic_once() {
    let doc = document_with_body(
        "<w:p><w:r><w:rPr><w:i/><w:iCs/></w:rPr><w:t>italic</w:t></w:r></w:p>",
    );
    let mut reader = make_reader(&doc);

    assert_eq!(
        collect_events(&mut reader),
        vec![
            start_doc(),
            start_para(),
            Event::StartTextStyle {
                kind: TextStyleKind::Italic,
                id: None,
            },
            Event::Text {
                content: "italic".to_string(),
            },
            Event::EndTextStyle,
            Event::EndParagraph,
            Event::EndDocument,
        ]
    );
}

#[test]
fn parse_p_second_ppr_is_ignored() {
    let doc = document_with_body(
        r#"<w:p><w:pPr><w:jc w:val="center"/></w:pPr><w:pPr><w:jc w:val="right"/></w:pPr><w:r><w:t>text</w:t></w:r></w:p>"#,
    );
    let mut reader = make_reader(&doc);

    assert_eq!(
        collect_events(&mut reader),
        vec![
            start_doc(),
            Event::StartParagraph {
                alignment: Some(TextAlignment::Center),
                id: None,
            },
            Event::Text {
                content: "text".to_string(),
            },
            Event::EndParagraph,
            Event::EndDocument,
        ]
    );
}

#[test]
fn parse_p_heading_via_pstyle() {
    let styles = r#"<w:style w:type="paragraph" w:styleId="Heading1">
<w:name w:val="heading 1"/>
</w:style>"#;
    let doc = document_with_body(
        r#"<w:p><w:pPr><w:pStyle w:val="Heading1"/></w:pPr><w:r><w:t>title</w:t></w:r></w:p>"#,
    );
    let mut reader = make_reader_with_styles(&doc, styles);
    let events = collect_events(&mut reader);
    assert_eq!(
        events,
        vec![
            start_doc(),
            Event::StartHeading { level: 1, id: None },
            Event::Text {
                content: "title".to_string(),
            },
            Event::EndHeading,
            Event::EndDocument,
        ]
    );
}

#[test]
fn parse_hyperlink_with_text() {
    let mut hyperlink_map = HyperlinkMap::default();
    hyperlink_map.insert("rId1".to_string(), "https://example.com".to_string());
    let doc = document_with_hyperlink_body(
        r#"<w:p><w:hyperlink r:id="rId1" w:tooltip="tip &amp; title"><w:r><w:t>link</w:t></w:r></w:hyperlink></w:p>"#,
    );
    let mut reader = make_reader_with_hyperlinks(&doc, hyperlink_map);

    assert_eq!(
        collect_events(&mut reader),
        vec![
            start_doc(),
            start_para(),
            Event::StartLink {
                href: "https://example.com".to_string(),
                id: None,
                title: Some("tip & title".to_string()),
            },
            Event::Text {
                content: "link".to_string(),
            },
            Event::EndLink,
            Event::EndParagraph,
            Event::EndDocument,
        ]
    );
}

#[test]
fn parse_hyperlink_empty_emits_nothing() {
    let mut hyperlink_map = HyperlinkMap::default();
    hyperlink_map.insert("rId1".to_string(), "https://example.com".to_string());
    let doc = document_with_hyperlink_body(r#"<w:p><w:hyperlink r:id="rId1"/></w:p>"#);
    let mut reader = make_reader_with_hyperlinks(&doc, hyperlink_map);

    assert_eq!(
        collect_events(&mut reader),
        vec![
            start_doc(),
            start_para(),
            Event::EndParagraph,
            Event::EndDocument,
        ]
    );
}

#[test]
fn parse_hyperlink_nested_flattens() {
    let mut hyperlink_map = HyperlinkMap::default();
    hyperlink_map.insert("rId1".to_string(), "https://outer.example".to_string());
    hyperlink_map.insert("rId2".to_string(), "https://inner.example".to_string());
    let doc = document_with_hyperlink_body(
        r#"<w:p><w:hyperlink r:id="rId1"><w:r><w:t>outer</w:t></w:r><w:hyperlink r:id="rId2"><w:r><w:t>inner</w:t></w:r></w:hyperlink></w:hyperlink></w:p>"#,
    );
    let mut reader = make_reader_with_hyperlinks(&doc, hyperlink_map);

    assert_eq!(
        collect_events(&mut reader),
        vec![
            start_doc(),
            start_para(),
            Event::StartLink {
                href: "https://outer.example".to_string(),
                id: None,
                title: None,
            },
            Event::Text {
                content: "outer".to_string(),
            },
            Event::Text {
                content: "inner".to_string(),
            },
            Event::EndLink,
            Event::EndParagraph,
            Event::EndDocument,
        ]
    );
}

#[test]
fn parse_tbl_outermost_with_header_band() {
    let doc = document_with_body(
        "<w:tbl><w:tr><w:trPr><w:tblHeader/></w:trPr><w:tc><w:p><w:r><w:t>h</w:t></w:r></w:p></w:tc></w:tr><w:tr><w:tc><w:p><w:r><w:t>d</w:t></w:r></w:p></w:tc></w:tr></w:tbl>",
    );
    let mut reader = make_reader(&doc);

    assert_eq!(
        collect_events(&mut reader),
        vec![
            start_doc(),
            Event::StartTable { id: None },
            Event::StartTableRow { id: None },
            start_header(None),
            start_para(),
            Event::Text {
                content: "h".to_string(),
            },
            Event::EndParagraph,
            Event::EndTableHeader,
            Event::EndTableRow,
            Event::StartTableRow { id: None },
            start_cell(None),
            start_para(),
            Event::Text {
                content: "d".to_string(),
            },
            Event::EndParagraph,
            Event::EndTableCell,
            Event::EndTableRow,
            Event::EndTable,
            Event::EndDocument,
        ]
    );
}

#[test]
fn parse_tbl_nested_no_header_band() {
    let doc = document_with_body(
        "<w:tbl><w:tr><w:tc><w:tbl><w:tr><w:trPr><w:tblHeader/></w:trPr><w:tc><w:p><w:r><w:t>nested</w:t></w:r></w:p></w:tc></w:tr></w:tbl></w:tc></w:tr></w:tbl>",
    );
    let mut reader = make_reader(&doc);

    assert_eq!(
        collect_events(&mut reader),
        vec![
            start_doc(),
            Event::StartTable { id: None },
            Event::StartTableRow { id: None },
            start_cell(None),
            Event::StartTable { id: None },
            Event::StartTableRow { id: None },
            start_cell(None),
            start_para(),
            Event::Text {
                content: "nested".to_string(),
            },
            Event::EndParagraph,
            Event::EndTableCell,
            Event::EndTableRow,
            Event::EndTable,
            Event::EndTableCell,
            Event::EndTableRow,
            Event::EndTable,
            Event::EndDocument,
        ]
    );
}

#[test]
fn parse_r_text_content() {
    let doc = document_with_body("<w:p><w:r><w:t>hello</w:t></w:r></w:p>");
    let mut reader = make_reader(&doc);

    assert_eq!(
        collect_events(&mut reader),
        vec![
            start_doc(),
            start_para(),
            Event::Text {
                content: "hello".to_string(),
            },
            Event::EndParagraph,
            Event::EndDocument,
        ]
    );
}

#[test]
fn deleted_run_subtree_is_skipped() {
    let doc = document_with_body(
        "<w:p><w:r><w:t>A</w:t></w:r><w:del><w:r><w:t>DELETED</w:t></w:r></w:del><w:r><w:t>B</w:t></w:r></w:p>",
    );
    let mut reader = make_reader(&doc);

    assert_eq!(
        collect_events(&mut reader),
        vec![
            start_doc(),
            start_para(),
            Event::Text {
                content: "A".to_string(),
            },
            Event::Text {
                content: "B".to_string(),
            },
            Event::EndParagraph,
            Event::EndDocument,
        ]
    );
}

#[test]
fn pict_subtree_without_image_data_is_skipped() {
    let doc = document_with_body(
        "<w:p><w:r><w:t>A</w:t><w:pict><v:shape><w:r><w:t>HIDDEN</w:t></w:r></v:shape></w:pict><w:t>B</w:t></w:r></w:p>",
    );
    let mut reader = make_reader(&doc);

    assert_eq!(
        collect_events(&mut reader),
        vec![
            start_doc(),
            start_para(),
            Event::Text {
                content: "A".to_string(),
            },
            Event::Text {
                content: "B".to_string(),
            },
            Event::EndParagraph,
            Event::EndDocument,
        ]
    );
}

#[test]
fn parse_r_styled_text() {
    let doc = document_with_body("<w:p><w:r><w:rPr><w:b/></w:rPr><w:t>bold</w:t></w:r></w:p>");
    let mut reader = make_reader(&doc);

    assert_eq!(
        collect_events(&mut reader),
        vec![
            start_doc(),
            start_para(),
            Event::StartTextStyle {
                kind: TextStyleKind::Bold,
                id: None,
            },
            Event::Text {
                content: "bold".to_string(),
            },
            Event::EndTextStyle,
            Event::EndParagraph,
            Event::EndDocument,
        ]
    );
}

#[test]
fn parse_r_second_rpr_is_ignored() {
    let doc = document_with_body(
        "<w:p><w:r><w:rPr><w:b/></w:rPr><w:rPr><w:i/></w:rPr><w:t>styled</w:t></w:r></w:p>",
    );
    let mut reader = make_reader(&doc);

    assert_eq!(
        collect_events(&mut reader),
        vec![
            start_doc(),
            start_para(),
            Event::StartTextStyle {
                kind: TextStyleKind::Bold,
                id: None,
            },
            Event::Text {
                content: "styled".to_string(),
            },
            Event::EndTextStyle,
            Event::EndParagraph,
            Event::EndDocument,
        ]
    );
}

#[test]
fn parse_r_empty_styled_run_emits_nothing() {
    let doc = document_with_body("<w:p><w:r><w:rPr><w:b/></w:rPr></w:r></w:p>");
    let mut reader = make_reader(&doc);

    assert_eq!(
        collect_events(&mut reader),
        vec![
            start_doc(),
            start_para(),
            Event::EndParagraph,
            Event::EndDocument,
        ]
    );
}

#[test]
fn drawing_embedded_internal_png_emits_zip_asset_with_alt_text() {
    let mut image_map = ImageMap::default();
    image_map.insert(
        "rId1".to_string(),
        image_rel("word/media/image1.png", false),
    );
    let doc = drawing_document(&picture_with_blip(
        r#"descr="alt text" name="ignored title""#,
        r#"<a:blip r:embed="rId1"/>"#,
    ));
    let mut reader = make_reader_with_images(&doc, image_map);

    assert_eq!(
        collect_events(&mut reader),
        vec![
            start_doc(),
            start_para(),
            image_event(
                asset_source("zip://word/media/image1.png"),
                Some("alt text"),
            ),
            Event::EndParagraph,
            Event::EndDocument,
        ]
    );
}

#[test]
fn drawing_external_link_emits_uri_without_alt() {
    let mut image_map = ImageMap::default();
    image_map.insert(
        "rId2".to_string(),
        image_rel("https://example.com/img.png", true),
    );
    let doc = drawing_document(&picture_with_blip("", r#"<a:blip r:link="rId2"/>"#));
    let mut reader = make_reader_with_images(&doc, image_map);

    assert_eq!(
        collect_events(&mut reader),
        vec![
            start_doc(),
            start_para(),
            image_event(
                ImageSource::Uri {
                    uri: "https://example.com/img.png".to_string(),
                },
                None,
            ),
            Event::EndParagraph,
            Event::EndDocument,
        ]
    );
}

#[test]
fn drawing_missing_rid_emits_raw_asset_id() {
    let doc = drawing_document(&picture_with_blip(
        r#"descr="missing rel""#,
        r#"<a:blip r:embed="rId99"/>"#,
    ));
    let mut reader = make_reader_with_images(&doc, ImageMap::default());

    assert_eq!(
        collect_events(&mut reader),
        vec![
            start_doc(),
            start_para(),
            image_event(asset_source("rId99"), Some("missing rel"),),
            Event::EndParagraph,
            Event::EndDocument,
        ]
    );
}

#[test]
fn drawing_empty_or_blip_without_ids_emits_no_image() {
    let doc = drawing_document(&picture_with_blip(r#"descr="ignored""#, "<a:blip/>"));
    let mut reader = make_reader_with_images(&doc, ImageMap::default());

    assert_eq!(
        collect_events(&mut reader),
        vec![
            start_doc(),
            start_para(),
            Event::EndParagraph,
            Event::EndDocument
        ]
    );
}

#[test]
fn drawing_with_embed_and_link_prefers_embed() {
    let mut image_map = ImageMap::default();
    image_map.insert(
        "rIdEmbed".to_string(),
        image_rel("word/media/embed.png", false),
    );
    image_map.insert(
        "rIdLink".to_string(),
        image_rel("https://example.com/link.png", true),
    );
    let doc = drawing_document(&picture_with_blip(
        r#"descr="embed wins""#,
        r#"<a:blip r:embed="rIdEmbed" r:link="rIdLink"/>"#,
    ));
    let mut reader = make_reader_with_images(&doc, image_map);

    assert_eq!(
        collect_events(&mut reader),
        vec![
            start_doc(),
            start_para(),
            image_event(
                asset_source("zip://word/media/embed.png"),
                Some("embed wins"),
            ),
            Event::EndParagraph,
            Event::EndDocument,
        ]
    );
}

#[test]
fn drawing_embed_with_external_target_mode_emits_uri() {
    let mut image_map = ImageMap::default();
    image_map.insert(
        "rIdExternalEmbed".to_string(),
        image_rel("https://cdn.example.com/embed.png", true),
    );
    let doc = drawing_document(&picture_with_blip(
        r#"descr="external embed""#,
        r#"<a:blip r:embed="rIdExternalEmbed"/>"#,
    ));
    let mut reader = make_reader_with_images(&doc, image_map);

    assert_eq!(
        collect_events(&mut reader),
        vec![
            start_doc(),
            start_para(),
            image_event(
                ImageSource::Uri {
                    uri: "https://cdn.example.com/embed.png".to_string(),
                },
                Some("external embed"),
            ),
            Event::EndParagraph,
            Event::EndDocument,
        ]
    );
}

#[test]
fn drawing_ignores_smart_art_blip_outside_picture_blip_fill() {
    let mut image_map = ImageMap::default();
    image_map.insert(
        "rIdSmart".to_string(),
        image_rel("word/media/smart.png", false),
    );
    let doc = drawing_document(
        r#"<wp:inline><wp:docPr descr="ignored"/><a:graphic><a:graphicData><a:blip r:embed="rIdSmart"/></a:graphicData></a:graphic></wp:inline>"#,
    );
    let mut reader = make_reader_with_images(&doc, image_map);

    assert_eq!(
        collect_events(&mut reader),
        vec![
            start_doc(),
            start_para(),
            Event::EndParagraph,
            Event::EndDocument
        ]
    );
}

#[test]
fn drawing_two_pictures_emit_two_images_in_source_order() {
    let mut image_map = ImageMap::default();
    image_map.insert("rId1".to_string(), image_rel("word/media/one.png", false));
    image_map.insert("rId2".to_string(), image_rel("word/media/two.png", false));
    let doc = drawing_document(&format!(
        "{}{}",
        picture_with_blip(r#"descr="one""#, r#"<a:blip r:embed="rId1"/>"#),
        picture_with_blip(r#"descr="two""#, r#"<a:blip r:embed="rId2"/>"#),
    ));
    let mut reader = make_reader_with_images(&doc, image_map);

    assert_eq!(
        collect_events(&mut reader),
        vec![
            start_doc(),
            start_para(),
            image_event(asset_source("zip://word/media/one.png"), Some("one"),),
            image_event(asset_source("zip://word/media/two.png"), Some("two"),),
            Event::EndParagraph,
            Event::EndDocument,
        ]
    );
}

#[test]
fn drawing_non_empty_blip_element_emits_like_self_closing_blip() {
    let mut image_map = ImageMap::default();
    image_map.insert(
        "rId1".to_string(),
        image_rel("word/media/image1.png", false),
    );
    let doc = drawing_document(&picture_with_blip(
        r#"descr="start tag""#,
        r#"<a:blip r:embed="rId1"><a:alphaModFix/></a:blip>"#,
    ));
    let mut reader = make_reader_with_images(&doc, image_map);

    assert_eq!(
        collect_events(&mut reader),
        vec![
            start_doc(),
            start_para(),
            image_event(
                asset_source("zip://word/media/image1.png"),
                Some("start tag"),
            ),
            Event::EndParagraph,
            Event::EndDocument,
        ]
    );
}

#[test]
fn pstyle_heading1_emits_start_heading() {
    let styles = r#"<w:style w:type="paragraph" w:styleId="Heading1">
        <w:name w:val="heading 1"/>
    </w:style>"#;
    let doc = r#"<?xml version="1.0" encoding="UTF-8"?>
<w:document xmlns:w="http://schemas.openxmlformats.org/wordprocessingml/2006/main">
  <w:body>
<w:p>
  <w:pPr><w:pStyle w:val="Heading1"/></w:pPr>
  <w:r><w:t>Hello</w:t></w:r>
</w:p>
  </w:body>
</w:document>"#;
    let mut reader = make_reader_with_styles(doc, styles);
    let events = collect_events(&mut reader);
    assert_eq!(
        events,
        vec![
            Event::StartDocument {
                id: None,
                language: None,
                metadata: None,
            },
            Event::StartHeading { level: 1, id: None },
            Event::Text {
                content: "Hello".to_string(),
            },
            Event::EndHeading,
            Event::EndDocument,
        ]
    );
}

#[test]
fn pstyle_title_folds_to_heading1() {
    let styles = r#"<w:style w:type="paragraph" w:styleId="Title">
        <w:name w:val="Title"/>
    </w:style>"#;
    let doc = r#"<?xml version="1.0" encoding="UTF-8"?>
<w:document xmlns:w="http://schemas.openxmlformats.org/wordprocessingml/2006/main">
  <w:body>
<w:p>
  <w:pPr><w:pStyle w:val="Title"/></w:pPr>
  <w:r><w:t>My Title</w:t></w:r>
</w:p>
  </w:body>
</w:document>"#;
    let mut reader = make_reader_with_styles(doc, styles);
    let events = collect_events(&mut reader);
    assert_eq!(
        events,
        vec![
            Event::StartDocument {
                id: None,
                language: None,
                metadata: None,
            },
            Event::StartHeading { level: 1, id: None },
            Event::Text {
                content: "My Title".to_string(),
            },
            Event::EndHeading,
            Event::EndDocument,
        ]
    );
}

#[test]
fn pstyle_block_quote_emits_start_block_quote() {
    let styles = r#"<w:style w:type="paragraph" w:styleId="BlockQuote">
        <w:name w:val="Block Quote"/>
    </w:style>"#;
    let doc = r#"<?xml version="1.0" encoding="UTF-8"?>
<w:document xmlns:w="http://schemas.openxmlformats.org/wordprocessingml/2006/main">
  <w:body>
<w:p>
  <w:pPr><w:pStyle w:val="BlockQuote"/></w:pPr>
  <w:r><w:t>quoted</w:t></w:r>
</w:p>
  </w:body>
</w:document>"#;
    let mut reader = make_reader_with_styles(doc, styles);
    let events = collect_events(&mut reader);
    assert_eq!(
        events,
        vec![
            Event::StartDocument {
                id: None,
                language: None,
                metadata: None,
            },
            Event::StartBlockQuote { id: None },
            Event::Text {
                content: "quoted".to_string(),
            },
            Event::EndBlockQuote,
            Event::EndDocument,
        ]
    );
}

#[test]
fn pstyle_source_code_emits_start_preformatted() {
    let styles = r#"<w:style w:type="paragraph" w:styleId="SourceCode">
        <w:name w:val="Source Code"/>
    </w:style>"#;
    let doc = r#"<?xml version="1.0" encoding="UTF-8"?>
<w:document xmlns:w="http://schemas.openxmlformats.org/wordprocessingml/2006/main">
  <w:body>
<w:p>
  <w:pPr><w:pStyle w:val="SourceCode"/></w:pPr>
  <w:r><w:t>fn main() {}</w:t></w:r>
</w:p>
  </w:body>
</w:document>"#;
    let mut reader = make_reader_with_styles(doc, styles);
    let events = collect_events(&mut reader);
    assert_eq!(
        events,
        vec![
            Event::StartDocument {
                id: None,
                language: None,
                metadata: None,
            },
            Event::StartPreformatted {
                id: None,
                syntax: None,
            },
            Event::Text {
                content: "fn main() {}".to_string(),
            },
            Event::EndPreformatted,
            Event::EndDocument,
        ]
    );
}

#[test]
fn pstyle_heading_99_emits_level_99() {
    let styles = r#"<w:style w:type="paragraph" w:styleId="Heading99">
        <w:name w:val="heading 99"/>
    </w:style>"#;
    let doc = r#"<?xml version="1.0" encoding="UTF-8"?>
<w:document xmlns:w="http://schemas.openxmlformats.org/wordprocessingml/2006/main">
  <w:body>
<w:p>
  <w:pPr><w:pStyle w:val="Heading99"/></w:pPr>
  <w:r><w:t>deep</w:t></w:r>
</w:p>
  </w:body>
</w:document>"#;
    let mut reader = make_reader_with_styles(doc, styles);
    let events = collect_events(&mut reader);
    assert_eq!(
        events,
        vec![
            Event::StartDocument {
                id: None,
                language: None,
                metadata: None,
            },
            Event::StartHeading {
                level: 99,
                id: None,
            },
            Event::Text {
                content: "deep".to_string(),
            },
            Event::EndHeading,
            Event::EndDocument,
        ]
    );
}

#[test]
fn pstyle_unknown_id_falls_through_to_paragraph() {
    let styles = r#"<w:style w:type="paragraph" w:styleId="Normal">
        <w:name w:val="Normal"/>
    </w:style>"#;
    let doc = r#"<?xml version="1.0" encoding="UTF-8"?>
<w:document xmlns:w="http://schemas.openxmlformats.org/wordprocessingml/2006/main">
  <w:body>
<w:p>
  <w:pPr><w:pStyle w:val="DoesNotExist"/></w:pPr>
  <w:r><w:t>plain</w:t></w:r>
</w:p>
  </w:body>
</w:document>"#;
    let mut reader = make_reader_with_styles(doc, styles);
    let events = collect_events(&mut reader);
    assert_eq!(
        events,
        vec![
            Event::StartDocument {
                id: None,
                language: None,
                metadata: None,
            },
            Event::StartParagraph {
                alignment: None,
                id: None,
            },
            Event::Text {
                content: "plain".to_string(),
            },
            Event::EndParagraph,
            Event::EndDocument,
        ]
    );
}

#[test]
fn pstyle_no_pstyle_emits_paragraph() {
    let doc = r#"<?xml version="1.0" encoding="UTF-8"?>
<w:document xmlns:w="http://schemas.openxmlformats.org/wordprocessingml/2006/main">
  <w:body>
<w:p>
  <w:r><w:t>bare</w:t></w:r>
</w:p>
  </w:body>
</w:document>"#;
    let mut reader = make_reader_with_styles(doc, "");
    let events = collect_events(&mut reader);
    assert_eq!(
        events,
        vec![
            Event::StartDocument {
                id: None,
                language: None,
                metadata: None,
            },
            Event::StartParagraph {
                alignment: None,
                id: None,
            },
            Event::Text {
                content: "bare".to_string(),
            },
            Event::EndParagraph,
            Event::EndDocument,
        ]
    );
}

#[test]
fn pstyle_out_of_order_ppr_ignored() {
    let styles = r#"<w:style w:type="paragraph" w:styleId="Heading1">
        <w:name w:val="heading 1"/>
    </w:style>"#;
    let doc = r#"<?xml version="1.0" encoding="UTF-8"?>
<w:document xmlns:w="http://schemas.openxmlformats.org/wordprocessingml/2006/main">
  <w:body>
<w:p><w:r><w:t>text</w:t></w:r><w:pPr><w:pStyle w:val="Heading1"/></w:pPr></w:p>
  </w:body>
</w:document>"#;
    let mut reader = make_reader_with_styles(doc, styles);
    let events = collect_events(&mut reader);
    assert_eq!(
        events,
        vec![
            Event::StartDocument {
                id: None,
                language: None,
                metadata: None,
            },
            Event::StartParagraph {
                alignment: None,
                id: None,
            },
            Event::Text {
                content: "text".to_string(),
            },
            Event::EndParagraph,
            Event::EndDocument,
        ]
    );
}

#[test]
fn pstyle_chain_walk_resolves_based_on() {
    let styles = r#"<w:style w:type="paragraph" w:styleId="Heading2">
        <w:name w:val="heading 2"/>
    </w:style>
    <w:style w:type="paragraph" w:styleId="MyHeading">
        <w:basedOn w:val="Heading2"/>
    </w:style>"#;
    let doc = r#"<?xml version="1.0" encoding="UTF-8"?>
<w:document xmlns:w="http://schemas.openxmlformats.org/wordprocessingml/2006/main">
  <w:body>
<w:p>
  <w:pPr><w:pStyle w:val="MyHeading"/></w:pPr>
  <w:r><w:t>section</w:t></w:r>
</w:p>
  </w:body>
</w:document>"#;
    let mut reader = make_reader_with_styles(doc, styles);
    let events = collect_events(&mut reader);
    assert_eq!(
        events,
        vec![
            Event::StartDocument {
                id: None,
                language: None,
                metadata: None,
            },
            Event::StartHeading { level: 2, id: None },
            Event::Text {
                content: "section".to_string(),
            },
            Event::EndHeading,
            Event::EndDocument,
        ]
    );
}

#[test]
fn rstyle_code_classification_emits_inline_code_wrapper() {
    let styles = r#"<w:style w:type="character" w:styleId="CodeChar">
        <w:name w:val="Verbatim Char"/>
    </w:style>"#;
    let doc = r#"<?xml version="1.0" encoding="UTF-8"?>
<w:document xmlns:w="http://schemas.openxmlformats.org/wordprocessingml/2006/main">
  <w:body>
<w:p>
  <w:r><w:rPr><w:rStyle w:val="CodeChar"/></w:rPr><w:t>x</w:t></w:r>
</w:p>
  </w:body>
</w:document>"#;
    let mut reader = make_reader_with_styles(doc, styles);
    let events = collect_events(&mut reader);
    assert_eq!(
        events,
        vec![
            Event::StartDocument {
                id: None,
                language: None,
                metadata: None,
            },
            Event::StartParagraph {
                alignment: None,
                id: None,
            },
            Event::StartTextStyle {
                kind: TextStyleKind::Code,
                id: None,
            },
            Event::Text {
                content: "x".to_string(),
            },
            Event::EndTextStyle,
            Event::EndParagraph,
            Event::EndDocument,
        ]
    );
}

#[test]
fn rstyle_unknown_classification_emits_no_wrapper() {
    let styles = r#"<w:style w:type="character" w:styleId="CodeChar">
        <w:name w:val="FooBar"/>
    </w:style>"#;
    let doc = r#"<?xml version="1.0" encoding="UTF-8"?>
<w:document xmlns:w="http://schemas.openxmlformats.org/wordprocessingml/2006/main">
  <w:body>
<w:p>
  <w:r><w:rPr><w:rStyle w:val="CodeChar"/></w:rPr><w:t>x</w:t></w:r>
</w:p>
  </w:body>
</w:document>"#;
    let mut reader = make_reader_with_styles(doc, styles);
    let events = collect_events(&mut reader);
    assert_eq!(
        events,
        vec![
            Event::StartDocument {
                id: None,
                language: None,
                metadata: None,
            },
            Event::StartParagraph {
                alignment: None,
                id: None,
            },
            Event::Text {
                content: "x".to_string(),
            },
            Event::EndParagraph,
            Event::EndDocument,
        ]
    );
}

#[test]
fn rstyle_non_code_classification_emits_no_wrapper() {
    let styles = r#"<w:style w:type="character" w:styleId="CodeChar">
        <w:name w:val="heading 1"/>
    </w:style>"#;
    let doc = r#"<?xml version="1.0" encoding="UTF-8"?>
<w:document xmlns:w="http://schemas.openxmlformats.org/wordprocessingml/2006/main">
  <w:body>
<w:p>
  <w:r><w:rPr><w:rStyle w:val="CodeChar"/></w:rPr><w:t>x</w:t></w:r>
</w:p>
  </w:body>
</w:document>"#;
    let mut reader = make_reader_with_styles(doc, styles);
    let events = collect_events(&mut reader);
    assert_eq!(
        events,
        vec![
            Event::StartDocument {
                id: None,
                language: None,
                metadata: None,
            },
            Event::StartParagraph {
                alignment: None,
                id: None,
            },
            Event::Text {
                content: "x".to_string(),
            },
            Event::EndParagraph,
            Event::EndDocument,
        ]
    );
}

#[test]
fn rstyle_inside_ppr_rpr_is_ignored() {
    let styles = r#"<w:style w:type="character" w:styleId="CodeChar">
        <w:name w:val="Verbatim Char"/>
    </w:style>"#;
    let doc = r#"<?xml version="1.0" encoding="UTF-8"?>
<w:document xmlns:w="http://schemas.openxmlformats.org/wordprocessingml/2006/main">
  <w:body>
<w:p>
  <w:pPr><w:rPr><w:rStyle w:val="CodeChar"/></w:rPr></w:pPr>
  <w:r><w:t>x</w:t></w:r>
</w:p>
  </w:body>
</w:document>"#;
    let mut reader = make_reader_with_styles(doc, styles);
    let events = collect_events(&mut reader);
    assert_eq!(
        events,
        vec![
            Event::StartDocument {
                id: None,
                language: None,
                metadata: None,
            },
            Event::StartParagraph {
                alignment: None,
                id: None,
            },
            Event::Text {
                content: "x".to_string(),
            },
            Event::EndParagraph,
            Event::EndDocument,
        ]
    );
}

#[test]
fn rstyle_duplicate_rstyle_emits_single_wrapper() {
    let styles = r#"<w:style w:type="character" w:styleId="CodeChar">
        <w:name w:val="Verbatim Char"/>
    </w:style>"#;
    let doc = r#"<?xml version="1.0" encoding="UTF-8"?>
<w:document xmlns:w="http://schemas.openxmlformats.org/wordprocessingml/2006/main">
  <w:body>
<w:p>
  <w:r><w:rPr><w:rStyle w:val="CodeChar"/><w:rStyle w:val="CodeChar"/></w:rPr><w:t>x</w:t></w:r>
</w:p>
  </w:body>
</w:document>"#;
    let mut reader = make_reader_with_styles(doc, styles);
    let events = collect_events(&mut reader);
    assert_eq!(
        events,
        vec![
            Event::StartDocument {
                id: None,
                language: None,
                metadata: None,
            },
            Event::StartParagraph {
                alignment: None,
                id: None,
            },
            Event::StartTextStyle {
                kind: TextStyleKind::Code,
                id: None,
            },
            Event::Text {
                content: "x".to_string(),
            },
            Event::EndTextStyle,
            Event::EndParagraph,
            Event::EndDocument,
        ]
    );
}

#[test]
fn single_ordered_list_item_emits_correct_events() {
    let doc = document_with_body(&list_paragraph(1, 0, "item"));
    let mut reader = make_reader_with_numbering(&doc, decimal_numbering());
    let events = collect_events(&mut reader);
    assert_eq!(
        events,
        vec![
            Event::StartDocument {
                id: None,
                language: None,
                metadata: None,
            },
            Event::StartOrderedListItem {
                id: Some("1".to_string()),
                level: 0,
                start: Some(1),
                style_type: ListStyleType::Decimal,
            },
            Event::StartParagraph {
                alignment: None,
                id: None,
            },
            Event::Text {
                content: "item".to_string(),
            },
            Event::EndParagraph,
            Event::EndOrderedListItem,
            Event::EndDocument,
        ]
    );
}

#[test]
fn nested_list_items_emit_correct_events() {
    let body = format!(
        "{}{}",
        list_paragraph(1, 0, "parent"),
        list_paragraph(1, 1, "child")
    );
    let doc = document_with_body(&body);
    let mut reader = make_reader_with_numbering(&doc, decimal_numbering());
    let events = collect_events(&mut reader);
    assert_eq!(
        events,
        vec![
            Event::StartDocument {
                id: None,
                language: None,
                metadata: None,
            },
            Event::StartOrderedListItem {
                id: Some("1".to_string()),
                level: 0,
                start: Some(1),
                style_type: ListStyleType::Decimal,
            },
            Event::StartParagraph {
                alignment: None,
                id: None,
            },
            Event::Text {
                content: "parent".to_string(),
            },
            Event::EndParagraph,
            Event::StartOrderedListItem {
                id: Some("1".to_string()),
                level: 1,
                start: Some(1),
                style_type: ListStyleType::Decimal,
            },
            Event::StartParagraph {
                alignment: None,
                id: None,
            },
            Event::Text {
                content: "child".to_string(),
            },
            Event::EndParagraph,
            Event::EndOrderedListItem,
            Event::EndOrderedListItem,
            Event::EndDocument,
        ]
    );
}

#[test]
fn level_decrease_pops_stack_correctly() {
    let body = format!(
        "{}{}{}",
        list_paragraph(1, 0, "one"),
        list_paragraph(1, 1, "child"),
        list_paragraph(1, 0, "two")
    );
    let doc = document_with_body(&body);
    let mut reader = make_reader_with_numbering(&doc, decimal_numbering());
    let events = collect_events(&mut reader);
    assert_eq!(
        events,
        vec![
            Event::StartDocument {
                id: None,
                language: None,
                metadata: None,
            },
            Event::StartOrderedListItem {
                id: Some("1".to_string()),
                level: 0,
                start: Some(1),
                style_type: ListStyleType::Decimal,
            },
            Event::StartParagraph {
                alignment: None,
                id: None,
            },
            Event::Text {
                content: "one".to_string(),
            },
            Event::EndParagraph,
            Event::StartOrderedListItem {
                id: Some("1".to_string()),
                level: 1,
                start: Some(1),
                style_type: ListStyleType::Decimal,
            },
            Event::StartParagraph {
                alignment: None,
                id: None,
            },
            Event::Text {
                content: "child".to_string(),
            },
            Event::EndParagraph,
            Event::EndOrderedListItem,
            Event::EndOrderedListItem,
            Event::StartOrderedListItem {
                id: Some("1".to_string()),
                level: 0,
                start: None,
                style_type: ListStyleType::Decimal,
            },
            Event::StartParagraph {
                alignment: None,
                id: None,
            },
            Event::Text {
                content: "two".to_string(),
            },
            Event::EndParagraph,
            Event::EndOrderedListItem,
            Event::EndDocument,
        ]
    );
}

#[test]
fn non_list_paragraph_between_list_items_breaks_list() {
    let body = format!(
        "{}{}{}",
        list_paragraph(1, 0, "one"),
        plain_paragraph("plain"),
        list_paragraph(1, 0, "two")
    );
    let doc = document_with_body(&body);
    let mut reader = make_reader_with_numbering(&doc, decimal_numbering());
    let events = collect_events(&mut reader);
    assert_eq!(
        events,
        vec![
            Event::StartDocument {
                id: None,
                language: None,
                metadata: None,
            },
            Event::StartOrderedListItem {
                id: Some("1".to_string()),
                level: 0,
                start: Some(1),
                style_type: ListStyleType::Decimal,
            },
            Event::StartParagraph {
                alignment: None,
                id: None,
            },
            Event::Text {
                content: "one".to_string(),
            },
            Event::EndParagraph,
            Event::EndOrderedListItem,
            Event::StartParagraph {
                alignment: None,
                id: None,
            },
            Event::Text {
                content: "plain".to_string(),
            },
            Event::EndParagraph,
            Event::StartOrderedListItem {
                id: Some("1".to_string()),
                level: 0,
                start: Some(2),
                style_type: ListStyleType::Decimal,
            },
            Event::StartParagraph {
                alignment: None,
                id: None,
            },
            Event::Text {
                content: "two".to_string(),
            },
            Event::EndParagraph,
            Event::EndOrderedListItem,
            Event::EndDocument,
        ]
    );
}

#[test]
fn document_end_flush_closes_open_list() {
    let doc = format!(
        r#"<?xml version="1.0" encoding="UTF-8"?>
<w:document xmlns:w="http://schemas.openxmlformats.org/wordprocessingml/2006/main"><w:body>{}"#,
        r#"<w:p><w:pPr><w:numPr><w:numId w:val="1"/><w:ilvl w:val="0"/></w:numPr></w:pPr><w:r><w:t>item</w:t></w:r>"#
    );
    let mut reader = make_reader_with_numbering(&doc, decimal_numbering());
    let events = collect_events(&mut reader);
    assert_eq!(
        events,
        vec![
            Event::StartDocument {
                id: None,
                language: None,
                metadata: None,
            },
            Event::StartOrderedListItem {
                id: Some("1".to_string()),
                level: 0,
                start: Some(1),
                style_type: ListStyleType::Decimal,
            },
            Event::StartParagraph {
                alignment: None,
                id: None,
            },
            Event::Text {
                content: "item".to_string(),
            },
            Event::EndParagraph,
            Event::EndOrderedListItem,
            Event::EndDocument,
        ]
    );
}

#[test]
fn num_id_zero_sentinel_emits_plain_paragraph() {
    let doc = document_with_body(&list_paragraph(0, 0, "plain"));
    let mut reader = make_reader_with_numbering(&doc, decimal_numbering());
    let events = collect_events(&mut reader);
    assert_eq!(
        events,
        vec![
            Event::StartDocument {
                id: None,
                language: None,
                metadata: None,
            },
            Event::StartParagraph {
                alignment: None,
                id: None,
            },
            Event::Text {
                content: "plain".to_string(),
            },
            Event::EndParagraph,
            Event::EndDocument,
        ]
    );
}

#[test]
fn oversized_list_level_is_clamped_to_eight() {
    let doc = document_with_body(&list_paragraph(1, 99, "deep"));
    let mut reader = make_reader_with_numbering(&doc, decimal_numbering());
    let events = collect_events(&mut reader);
    assert_eq!(
        events,
        vec![
            Event::StartDocument {
                id: None,
                language: None,
                metadata: None,
            },
            Event::StartOrderedListItem {
                id: Some("1".to_string()),
                level: 0,
                start: None,
                style_type: ListStyleType::Decimal,
            },
            Event::StartOrderedListItem {
                id: Some("1".to_string()),
                level: 1,
                start: None,
                style_type: ListStyleType::Decimal,
            },
            Event::StartOrderedListItem {
                id: Some("1".to_string()),
                level: 2,
                start: None,
                style_type: ListStyleType::Decimal,
            },
            Event::StartOrderedListItem {
                id: Some("1".to_string()),
                level: 3,
                start: None,
                style_type: ListStyleType::Decimal,
            },
            Event::StartOrderedListItem {
                id: Some("1".to_string()),
                level: 4,
                start: None,
                style_type: ListStyleType::Decimal,
            },
            Event::StartOrderedListItem {
                id: Some("1".to_string()),
                level: 5,
                start: None,
                style_type: ListStyleType::Decimal,
            },
            Event::StartOrderedListItem {
                id: Some("1".to_string()),
                level: 6,
                start: None,
                style_type: ListStyleType::Decimal,
            },
            Event::StartOrderedListItem {
                id: Some("1".to_string()),
                level: 7,
                start: None,
                style_type: ListStyleType::Decimal,
            },
            Event::StartOrderedListItem {
                id: Some("1".to_string()),
                level: 8,
                start: Some(1),
                style_type: ListStyleType::Decimal,
            },
            Event::StartParagraph {
                alignment: None,
                id: None,
            },
            Event::Text {
                content: "deep".to_string(),
            },
            Event::EndParagraph,
            Event::EndOrderedListItem,
            Event::EndOrderedListItem,
            Event::EndOrderedListItem,
            Event::EndOrderedListItem,
            Event::EndOrderedListItem,
            Event::EndOrderedListItem,
            Event::EndOrderedListItem,
            Event::EndOrderedListItem,
            Event::EndOrderedListItem,
            Event::EndDocument,
        ]
    );
}

#[test]
fn list_item_inside_table_cell_closes_before_cell_end() {
    let doc = document_with_body(&format!(
        "<w:tbl><w:tr><w:tc>{}</w:tc></w:tr></w:tbl>",
        list_paragraph(1, 0, "cell")
    ));
    let mut reader = make_reader_with_numbering(&doc, decimal_numbering());
    let events = collect_events(&mut reader);
    assert_eq!(
        events,
        vec![
            Event::StartDocument {
                id: None,
                language: None,
                metadata: None,
            },
            Event::StartTable { id: None },
            Event::StartTableRow { id: None },
            Event::StartTableCell {
                colspan: None,
                rowspan: None,
                id: None,
            },
            Event::StartOrderedListItem {
                id: Some("1".to_string()),
                level: 0,
                start: Some(1),
                style_type: ListStyleType::Decimal,
            },
            Event::StartParagraph {
                alignment: None,
                id: None,
            },
            Event::Text {
                content: "cell".to_string(),
            },
            Event::EndParagraph,
            Event::EndOrderedListItem,
            Event::EndTableCell,
            Event::EndTableRow,
            Event::EndTable,
            Event::EndDocument,
        ]
    );
}

#[test]
fn table_after_list_item_breaks_list_before_table_start() {
    let doc = document_with_body(&format!(
        "{}<w:tbl><w:tr><w:tc>{}</w:tc></w:tr></w:tbl>",
        list_paragraph(1, 0, "item"),
        plain_paragraph("cell")
    ));
    let mut reader = make_reader_with_numbering(&doc, decimal_numbering());
    let events = collect_events(&mut reader);
    assert_eq!(
        events,
        vec![
            Event::StartDocument {
                id: None,
                language: None,
                metadata: None,
            },
            Event::StartOrderedListItem {
                id: Some("1".to_string()),
                level: 0,
                start: Some(1),
                style_type: ListStyleType::Decimal,
            },
            Event::StartParagraph {
                alignment: None,
                id: None,
            },
            Event::Text {
                content: "item".to_string(),
            },
            Event::EndParagraph,
            Event::EndOrderedListItem,
            Event::StartTable { id: None },
            Event::StartTableRow { id: None },
            Event::StartTableCell {
                colspan: None,
                rowspan: None,
                id: None,
            },
            Event::StartParagraph {
                alignment: None,
                id: None,
            },
            Event::Text {
                content: "cell".to_string(),
            },
            Event::EndParagraph,
            Event::EndTableCell,
            Event::EndTableRow,
            Event::EndTable,
            Event::EndDocument,
        ]
    );
}

#[test]
fn numpr_with_num_id_and_ilvl_is_consumed_by_paragraph_start() {
    let doc = r#"<?xml version="1.0" encoding="UTF-8"?>
<w:document xmlns:w="http://schemas.openxmlformats.org/wordprocessingml/2006/main">
  <w:body>
<w:p>
  <w:pPr><w:numPr><w:numId w:val="3"/><w:ilvl w:val="2"/></w:numPr></w:pPr>
  <w:r><w:t>item</w:t></w:r>
</w:p>
  </w:body>
</w:document>"#;
    let mut reader = make_reader(doc);
    let events = collect_events(&mut reader);
    assert_eq!(
        events,
        vec![
            Event::StartDocument {
                id: None,
                language: None,
                metadata: None,
            },
            Event::StartParagraph {
                alignment: None,
                id: None,
            },
            Event::Text {
                content: "item".to_string(),
            },
            Event::EndParagraph,
            Event::EndDocument,
        ]
    );
}

#[test]
fn numpr_with_num_id_only_defaults_ilvl_to_zero_before_consuming() {
    let doc = r#"<?xml version="1.0" encoding="UTF-8"?>
<w:document xmlns:w="http://schemas.openxmlformats.org/wordprocessingml/2006/main">
  <w:body>
<w:p>
  <w:pPr><w:numPr><w:numId w:val="1"/></w:numPr></w:pPr>
  <w:r><w:t>item</w:t></w:r>
</w:p>
  </w:body>
</w:document>"#;
    let mut reader = make_reader(doc);
    let events = collect_events(&mut reader);
    assert_eq!(
        events,
        vec![
            Event::StartDocument {
                id: None,
                language: None,
                metadata: None,
            },
            Event::StartParagraph {
                alignment: None,
                id: None,
            },
            Event::Text {
                content: "item".to_string(),
            },
            Event::EndParagraph,
            Event::EndDocument,
        ]
    );
}

#[test]
fn numpr_without_num_id_emits_plain_paragraph() {
    let doc = r#"<?xml version="1.0" encoding="UTF-8"?>
<w:document xmlns:w="http://schemas.openxmlformats.org/wordprocessingml/2006/main">
  <w:body>
<w:p>
  <w:pPr><w:numPr><w:ilvl w:val="0"/></w:numPr></w:pPr>
  <w:r><w:t>plain</w:t></w:r>
</w:p>
  </w:body>
</w:document>"#;
    let mut reader = make_reader(doc);
    let events = collect_events(&mut reader);
    assert_eq!(
        events,
        vec![
            Event::StartDocument {
                id: None,
                language: None,
                metadata: None,
            },
            Event::StartParagraph {
                alignment: None,
                id: None,
            },
            Event::Text {
                content: "plain".to_string(),
            },
            Event::EndParagraph,
            Event::EndDocument,
        ]
    );
}

#[test]
fn multiple_plain_paragraphs_after_list_item_emit_as_top_level_siblings() {
    let body = format!(
        "{}{}{}{}",
        list_paragraph(1, 0, "one"),
        plain_paragraph("first continuation"),
        plain_paragraph("second continuation"),
        list_paragraph(1, 0, "two")
    );
    let doc = document_with_body(&body);
    let mut reader = make_reader_with_numbering(&doc, decimal_numbering());
    let events = collect_events(&mut reader);
    assert_eq!(
        events,
        vec![
            Event::StartDocument {
                id: None,
                language: None,
                metadata: None,
            },
            Event::StartOrderedListItem {
                id: Some("1".to_string()),
                level: 0,
                start: Some(1),
                style_type: ListStyleType::Decimal,
            },
            Event::StartParagraph {
                alignment: None,
                id: None,
            },
            Event::Text {
                content: "one".to_string(),
            },
            Event::EndParagraph,
            Event::EndOrderedListItem,
            Event::StartParagraph {
                alignment: None,
                id: None,
            },
            Event::Text {
                content: "first continuation".to_string(),
            },
            Event::EndParagraph,
            Event::StartParagraph {
                alignment: None,
                id: None,
            },
            Event::Text {
                content: "second continuation".to_string(),
            },
            Event::EndParagraph,
            Event::StartOrderedListItem {
                id: Some("1".to_string()),
                level: 0,
                start: Some(2),
                style_type: ListStyleType::Decimal,
            },
            Event::StartParagraph {
                alignment: None,
                id: None,
            },
            Event::Text {
                content: "two".to_string(),
            },
            Event::EndParagraph,
            Event::EndOrderedListItem,
            Event::EndDocument,
        ]
    );
}

#[test]
fn trailing_plain_paragraphs_after_list_at_document_end_emit_as_top_level_siblings() {
    let body = format!(
        "{}{}{}",
        list_paragraph(1, 0, "one"),
        plain_paragraph("trailing first"),
        plain_paragraph("trailing second")
    );
    let doc = document_with_body(&body);
    let mut reader = make_reader_with_numbering(&doc, decimal_numbering());
    let events = collect_events(&mut reader);
    assert_eq!(
        events,
        vec![
            Event::StartDocument {
                id: None,
                language: None,
                metadata: None,
            },
            Event::StartOrderedListItem {
                id: Some("1".to_string()),
                level: 0,
                start: Some(1),
                style_type: ListStyleType::Decimal,
            },
            Event::StartParagraph {
                alignment: None,
                id: None,
            },
            Event::Text {
                content: "one".to_string(),
            },
            Event::EndParagraph,
            Event::EndOrderedListItem,
            Event::StartParagraph {
                alignment: None,
                id: None,
            },
            Event::Text {
                content: "trailing first".to_string(),
            },
            Event::EndParagraph,
            Event::StartParagraph {
                alignment: None,
                id: None,
            },
            Event::Text {
                content: "trailing second".to_string(),
            },
            Event::EndParagraph,
            Event::EndDocument,
        ]
    );
}

#[test]
fn plain_paragraph_then_deeper_level_starts_new_list_with_phantom_level_zero_wrapper() {
    let body = format!(
        "{}{}{}",
        list_paragraph(1, 0, "outer"),
        plain_paragraph("continuation"),
        list_paragraph(1, 1, "child")
    );
    let doc = document_with_body(&body);
    let mut reader = make_reader_with_numbering(&doc, decimal_numbering());
    let events = collect_events(&mut reader);
    assert_eq!(
        events,
        vec![
            Event::StartDocument {
                id: None,
                language: None,
                metadata: None,
            },
            Event::StartOrderedListItem {
                id: Some("1".to_string()),
                level: 0,
                start: Some(1),
                style_type: ListStyleType::Decimal,
            },
            Event::StartParagraph {
                alignment: None,
                id: None,
            },
            Event::Text {
                content: "outer".to_string(),
            },
            Event::EndParagraph,
            Event::EndOrderedListItem,
            Event::StartParagraph {
                alignment: None,
                id: None,
            },
            Event::Text {
                content: "continuation".to_string(),
            },
            Event::EndParagraph,
            Event::StartOrderedListItem {
                id: Some("1".to_string()),
                level: 0,
                start: None,
                style_type: ListStyleType::Decimal,
            },
            Event::StartOrderedListItem {
                id: Some("1".to_string()),
                level: 1,
                start: Some(1),
                style_type: ListStyleType::Decimal,
            },
            Event::StartParagraph {
                alignment: None,
                id: None,
            },
            Event::Text {
                content: "child".to_string(),
            },
            Event::EndParagraph,
            Event::EndOrderedListItem,
            Event::EndOrderedListItem,
            Event::EndDocument,
        ]
    );
}

#[test]
fn plain_paragraph_inside_table_cell_breaks_list_immediately() {
    let body = format!(
        "<w:tbl><w:tr><w:tc>{}{}</w:tc></w:tr></w:tbl>",
        list_paragraph(1, 0, "cell item"),
        plain_paragraph("continuation")
    );
    let doc = document_with_body(&body);
    let mut reader = make_reader_with_numbering(&doc, decimal_numbering());
    let events = collect_events(&mut reader);
    assert_eq!(
        events,
        vec![
            Event::StartDocument {
                id: None,
                language: None,
                metadata: None,
            },
            Event::StartTable { id: None },
            Event::StartTableRow { id: None },
            Event::StartTableCell {
                colspan: None,
                rowspan: None,
                id: None,
            },
            Event::StartOrderedListItem {
                id: Some("1".to_string()),
                level: 0,
                start: Some(1),
                style_type: ListStyleType::Decimal,
            },
            Event::StartParagraph {
                alignment: None,
                id: None,
            },
            Event::Text {
                content: "cell item".to_string(),
            },
            Event::EndParagraph,
            Event::EndOrderedListItem,
            Event::StartParagraph {
                alignment: None,
                id: None,
            },
            Event::Text {
                content: "continuation".to_string(),
            },
            Event::EndParagraph,
            Event::EndTableCell,
            Event::EndTableRow,
            Event::EndTable,
            Event::EndDocument,
        ]
    );
}

#[test]
fn heading_between_list_items_still_closes_list() {
    let styles_body = r#"<w:style w:type="paragraph" w:styleId="Heading1">
<w:name w:val="heading 1"/>
</w:style>"#;
    let body = format!(
        "{}{}{}",
        list_paragraph(1, 0, "one"),
        r#"<w:p><w:pPr><w:pStyle w:val="Heading1"/></w:pPr><w:r><w:t>heading</w:t></w:r></w:p>"#,
        list_paragraph(1, 0, "two")
    );
    let doc = document_with_body(&body);
    let mut reader =
        make_reader_with_styles_and_numbering(&doc, styles_body, decimal_numbering());
    let events = collect_events(&mut reader);
    assert_eq!(
        events,
        vec![
            Event::StartDocument {
                id: None,
                language: None,
                metadata: None,
            },
            Event::StartOrderedListItem {
                id: Some("1".to_string()),
                level: 0,
                start: Some(1),
                style_type: ListStyleType::Decimal,
            },
            Event::StartParagraph {
                alignment: None,
                id: None,
            },
            Event::Text {
                content: "one".to_string(),
            },
            Event::EndParagraph,
            Event::EndOrderedListItem,
            Event::StartHeading { level: 1, id: None },
            Event::Text {
                content: "heading".to_string(),
            },
            Event::EndHeading,
            Event::StartOrderedListItem {
                id: Some("1".to_string()),
                level: 0,
                start: Some(2),
                style_type: ListStyleType::Decimal,
            },
            Event::StartParagraph {
                alignment: None,
                id: None,
            },
            Event::Text {
                content: "two".to_string(),
            },
            Event::EndParagraph,
            Event::EndOrderedListItem,
            Event::EndDocument,
        ]
    );
}

#[test]
fn continuation_paragraph_before_any_list_emits_plain() {
    let body = format!(
        "{}{}",
        plain_paragraph("standalone"),
        list_paragraph(1, 0, "item")
    );
    let doc = document_with_body(&body);
    let mut reader = make_reader_with_numbering(&doc, decimal_numbering());
    let events = collect_events(&mut reader);
    assert_eq!(
        events,
        vec![
            Event::StartDocument {
                id: None,
                language: None,
                metadata: None,
            },
            Event::StartParagraph {
                alignment: None,
                id: None,
            },
            Event::Text {
                content: "standalone".to_string(),
            },
            Event::EndParagraph,
            Event::StartOrderedListItem {
                id: Some("1".to_string()),
                level: 0,
                start: Some(1),
                style_type: ListStyleType::Decimal,
            },
            Event::StartParagraph {
                alignment: None,
                id: None,
            },
            Event::Text {
                content: "item".to_string(),
            },
            Event::EndParagraph,
            Event::EndOrderedListItem,
            Event::EndDocument,
        ]
    );
}

#[test]
fn calibre_demo_continued_lists_pattern_produces_continuous_numbering() {
    let body = format!(
        "{}{}{}{}{}",
        list_paragraph(7, 0, "One"),
        list_paragraph(7, 0, "Two"),
        plain_paragraph(
            "An interruption in our regularly scheduled listing, for this essential and very relevant public service announcement."
        ),
        list_paragraph(7, 0, "We now resume our normal programming"),
        list_paragraph(7, 0, "Four")
    );
    let doc = document_with_body(&body);
    let numbering_xml_str = numbering_xml(
        r#"<w:abstractNum w:abstractNumId="7">
<w:lvl w:ilvl="0"><w:numFmt w:val="decimal"/></w:lvl>
</w:abstractNum>
<w:num w:numId="7"><w:abstractNumId w:val="7"/></w:num>"#,
    );
    let numbering =
        parse_numbering(numbering_xml_str.into_bytes())
            .expect("valid numbering XML");
    let mut reader = make_reader_with_numbering(&doc, numbering);
    let events = collect_events(&mut reader);
    assert_eq!(
        events,
        vec![
            Event::StartDocument {
                id: None,
                language: None,
                metadata: None,
            },
            Event::StartOrderedListItem {
                id: Some("7".to_string()),
                level: 0,
                start: Some(1),
                style_type: ListStyleType::Decimal,
            },
            Event::StartParagraph {
                alignment: None,
                id: None,
            },
            Event::Text {
                content: "One".to_string(),
            },
            Event::EndParagraph,
            Event::EndOrderedListItem,
            Event::StartOrderedListItem {
                id: Some("7".to_string()),
                level: 0,
                start: None,
                style_type: ListStyleType::Decimal,
            },
            Event::StartParagraph {
                alignment: None,
                id: None,
            },
            Event::Text {
                content: "Two".to_string(),
            },
            Event::EndParagraph,
            Event::EndOrderedListItem,
            Event::StartParagraph {
                alignment: None,
                id: None,
            },
            Event::Text {
                content: "An interruption in our regularly scheduled listing, for this essential and very relevant public service announcement.".to_string(),
            },
            Event::EndParagraph,
            Event::StartOrderedListItem {
                id: Some("7".to_string()),
                level: 0,
                start: Some(3),
                style_type: ListStyleType::Decimal,
            },
            Event::StartParagraph {
                alignment: None,
                id: None,
            },
            Event::Text {
                content: "We now resume our normal programming".to_string(),
            },
            Event::EndParagraph,
            Event::EndOrderedListItem,
            Event::StartOrderedListItem {
                id: Some("7".to_string()),
                level: 0,
                start: None,
                style_type: ListStyleType::Decimal,
            },
            Event::StartParagraph {
                alignment: None,
                id: None,
            },
            Event::Text {
                content: "Four".to_string(),
            },
            Event::EndParagraph,
            Event::EndOrderedListItem,
            Event::EndDocument,
        ]
    );
}

#[test]
fn different_num_id_at_same_level_emits_two_distinct_lists() {
    let body = format!(
        "{}{}",
        list_paragraph(1, 0, "first"),
        list_paragraph(2, 0, "second")
    );
    let doc = document_with_body(&body);
    let mut reader = make_reader_with_numbering(&doc, two_decimal_numbering());
    let events = collect_events(&mut reader);
    assert_eq!(
        events,
        vec![
            Event::StartDocument {
                id: None,
                language: None,
                metadata: None,
            },
            Event::StartOrderedListItem {
                id: Some("1".to_string()),
                level: 0,
                start: Some(1),
                style_type: ListStyleType::Decimal,
            },
            Event::StartParagraph {
                alignment: None,
                id: None,
            },
            Event::Text {
                content: "first".to_string(),
            },
            Event::EndParagraph,
            Event::EndOrderedListItem,
            Event::StartOrderedListItem {
                id: Some("2".to_string()),
                level: 0,
                start: Some(1),
                style_type: ListStyleType::Decimal,
            },
            Event::StartParagraph {
                alignment: None,
                id: None,
            },
            Event::Text {
                content: "second".to_string(),
            },
            Event::EndParagraph,
            Event::EndOrderedListItem,
            Event::EndDocument,
        ]
    );
}

#[test]
fn plain_paragraph_between_two_same_num_id_lists_breaks_list_preserves_counter() {
    let body = format!(
        "{}{}{}",
        list_paragraph(1, 0, "one"),
        plain_paragraph("interrupt"),
        list_paragraph(1, 0, "two")
    );
    let doc = document_with_body(&body);
    let mut reader = make_reader_with_numbering(&doc, decimal_numbering());
    let events = collect_events(&mut reader);
    assert_eq!(
        events,
        vec![
            Event::StartDocument {
                id: None,
                language: None,
                metadata: None,
            },
            Event::StartOrderedListItem {
                id: Some("1".to_string()),
                level: 0,
                start: Some(1),
                style_type: ListStyleType::Decimal,
            },
            Event::StartParagraph {
                alignment: None,
                id: None,
            },
            Event::Text {
                content: "one".to_string(),
            },
            Event::EndParagraph,
            Event::EndOrderedListItem,
            Event::StartParagraph {
                alignment: None,
                id: None,
            },
            Event::Text {
                content: "interrupt".to_string(),
            },
            Event::EndParagraph,
            Event::StartOrderedListItem {
                id: Some("1".to_string()),
                level: 0,
                start: Some(2),
                style_type: ListStyleType::Decimal,
            },
            Event::StartParagraph {
                alignment: None,
                id: None,
            },
            Event::Text {
                content: "two".to_string(),
            },
            Event::EndParagraph,
            Event::EndOrderedListItem,
            Event::EndDocument,
        ]
    );
}

#[test]
fn trailing_plain_paragraphs_after_list_emit_as_top_level_siblings() {
    let body = format!(
        "{}{}{}",
        list_paragraph(1, 0, "item"),
        plain_paragraph("tail1"),
        plain_paragraph("tail2")
    );
    let doc = document_with_body(&body);
    let mut reader = make_reader_with_numbering(&doc, decimal_numbering());
    let events = collect_events(&mut reader);
    assert_eq!(
        events,
        vec![
            Event::StartDocument {
                id: None,
                language: None,
                metadata: None,
            },
            Event::StartOrderedListItem {
                id: Some("1".to_string()),
                level: 0,
                start: Some(1),
                style_type: ListStyleType::Decimal,
            },
            Event::StartParagraph {
                alignment: None,
                id: None,
            },
            Event::Text {
                content: "item".to_string(),
            },
            Event::EndParagraph,
            Event::EndOrderedListItem,
            Event::StartParagraph {
                alignment: None,
                id: None,
            },
            Event::Text {
                content: "tail1".to_string(),
            },
            Event::EndParagraph,
            Event::StartParagraph {
                alignment: None,
                id: None,
            },
            Event::Text {
                content: "tail2".to_string(),
            },
            Event::EndParagraph,
            Event::EndDocument,
        ]
    );
}


fn parse_rpr_fragment(xml_fragment: &str) -> RunProps {
    let mut reader = make_reader(xml_fragment);
    loop {
        match reader.next_start_tag() {
            Some(name) if name.rsplit(':').next() == Some("rPr") => {
                return reader.parse_rpr().expect("rPr fragment parses");
            }
            Some(_) => {}
            None => panic!("missing rPr start"),
        }
    }
}

#[test]
fn parse_numpr_with_both() {
    let mut reader = make_reader(
        r#"<w:numPr xmlns:w="http://schemas.openxmlformats.org/wordprocessingml/2006/main"><w:numId w:val="7"/><w:ilvl w:val="2"/></w:numPr>"#,
    );
    reader.next_start_tag().expect("expected start tag");
    let parsed = reader.parse_numpr().expect("numPr parses");
    assert_eq!(parsed, Some((7, 2)));
}

#[test]
fn parse_numpr_no_ilvl_defaults_to_zero() {
    let mut reader = make_reader(
        r#"<w:numPr xmlns:w="http://schemas.openxmlformats.org/wordprocessingml/2006/main"><w:numId w:val="7"/></w:numPr>"#,
    );
    reader.next_start_tag().expect("expected start tag");
    let parsed = reader.parse_numpr().expect("numPr parses");
    assert_eq!(parsed, Some((7, 0)));
}

#[test]
fn parse_numpr_unknown_children() {
    let mut reader = make_reader(
        r#"<w:numPr xmlns:w="http://schemas.openxmlformats.org/wordprocessingml/2006/main"><w:unknown><w:numId w:val="9"/></w:unknown><w:numId w:val="3"/><w:ilvl w:val="1"/></w:numPr>"#,
    );
    reader.next_start_tag().expect("expected start tag");
    let parsed = reader.parse_numpr().expect("numPr parses");
    assert_eq!(parsed, Some((3, 1)));
}

#[test]
fn parse_ppr_all_three() {
    let styles = r#"<w:style w:type="paragraph" w:styleId="Heading2">
<w:name w:val="heading 2"/>
</w:style>"#;
    let mut reader = make_reader_with_styles(
        r#"<w:pPr xmlns:w="http://schemas.openxmlformats.org/wordprocessingml/2006/main"><w:jc w:val="center"/><w:pStyle w:val="Heading2"/><w:numPr><w:numId w:val="4"/><w:ilvl w:val="1"/></w:numPr></w:pPr>"#,
        styles,
    );
    reader.next_start_tag().expect("expected start tag");
    let parsed = reader.parse_ppr().expect("pPr parses");
    assert_eq!(
        parsed,
        ParagraphProps {
            alignment: Some(TextAlignment::Center),
            classification: Some(StyleClassification::Heading { level: 2 }),
            list_info: Some((4, 1)),
        }
    );
}

#[test]
fn parse_ppr_empty_returns_default() {
    let mut reader = make_reader(
        r#"<w:pPr xmlns:w="http://schemas.openxmlformats.org/wordprocessingml/2006/main"></w:pPr>"#,
    );
    reader.next_start_tag().expect("expected start tag");
    let parsed = reader.parse_ppr().expect("pPr parses");
    assert_eq!(parsed, ParagraphProps { alignment: None, classification: None, list_info: None });
}

#[test]
fn parse_tcpr_gridspan() {
    let mut reader = make_reader(
        r#"<w:tcPr xmlns:w="http://schemas.openxmlformats.org/wordprocessingml/2006/main"><w:gridSpan w:val="3"/></w:tcPr>"#,
    );
    reader.next_start_tag().expect("expected start tag");
    let parsed = reader.parse_tcpr().expect("tcPr parses");

    assert_eq!(parsed, Some(3));
}

#[test]
fn parse_tcpr_empty_returns_none_colspan() {
    let mut reader = make_reader(
        r#"<w:tcPr xmlns:w="http://schemas.openxmlformats.org/wordprocessingml/2006/main"></w:tcPr>"#,
    );
    reader.next_start_tag().expect("expected start tag");
    let parsed = reader.parse_tcpr().expect("tcPr parses");

    assert_eq!(parsed, None);
}

#[test]
fn parse_trpr_tblheader() {
    let mut reader = make_reader(
        r#"<w:trPr xmlns:w="http://schemas.openxmlformats.org/wordprocessingml/2006/main"><w:tblHeader/></w:trPr>"#,
    );
    reader.next_start_tag().expect("expected start tag");
    let parsed = reader.parse_trpr().expect("trPr parses");

    assert_eq!(parsed, true);
}

#[test]
fn parse_trpr_empty_returns_false() {
    let mut reader = make_reader(
        r#"<w:trPr xmlns:w="http://schemas.openxmlformats.org/wordprocessingml/2006/main"></w:trPr>"#,
    );
    reader.next_start_tag().expect("expected start tag");
    let parsed = reader.parse_trpr().expect("trPr parses");

    assert_eq!(parsed, false);
}

#[test]
fn parse_tc_data_cell() {
    let mut reader = make_reader(
        r#"<w:tc xmlns:w="http://schemas.openxmlformats.org/wordprocessingml/2006/main"><w:p><w:r><w:t>cell</w:t></w:r></w:p></w:tc>"#,
    );
    reader.next_start_tag().expect("expected start tag");
    reader.parse_tc(false).expect("tc parses");

    assert_eq!(
        reader.take_queued(),
        vec![
            start_cell(None),
            start_para(),
            Event::Text {
                content: "cell".to_string(),
            },
            Event::EndParagraph,
            Event::EndTableCell,
        ]
    );
}

#[test]
fn parse_tc_header_cell() {
    let mut reader = make_reader(
        r#"<w:tc xmlns:w="http://schemas.openxmlformats.org/wordprocessingml/2006/main"><w:p><w:r><w:t>head</w:t></w:r></w:p></w:tc>"#,
    );
    reader.next_start_tag().expect("expected start tag");
    reader.parse_tc(true).expect("tc parses");

    assert_eq!(
        reader.take_queued(),
        vec![
            start_header(None),
            start_para(),
            Event::Text {
                content: "head".to_string(),
            },
            Event::EndParagraph,
            Event::EndTableHeader,
        ]
    );
}

#[test]
fn parse_tc_colspan() {
    let mut reader = make_reader(
        r#"<w:tc xmlns:w="http://schemas.openxmlformats.org/wordprocessingml/2006/main"><w:tcPr><w:gridSpan w:val="2"/></w:tcPr><w:p/></w:tc>"#,
    );
    reader.next_start_tag().expect("expected start tag");
    reader.parse_tc(false).expect("tc parses");

    assert_eq!(
        reader.take_queued(),
        vec![
            start_cell(Some(2)),
            start_para(),
            Event::EndParagraph,
            Event::EndTableCell,
        ]
    );
}

#[test]
fn parse_tc_second_tcpr_is_ignored() {
    let mut reader = make_reader(
        r#"<w:tc xmlns:w="http://schemas.openxmlformats.org/wordprocessingml/2006/main"><w:tcPr><w:gridSpan w:val="2"/></w:tcPr><w:tcPr><w:gridSpan w:val="1"/></w:tcPr><w:p/></w:tc>"#,
    );
    reader.next_start_tag().expect("expected start tag");
    reader.parse_tc(false).expect("tc parses");

    assert_eq!(
        reader.take_queued(),
        vec![
            start_cell(Some(2)),
            start_para(),
            Event::EndParagraph,
            Event::EndTableCell,
        ]
    );
}

#[test]
fn parse_tr_header_row() {
    let mut reader = make_reader(
        r#"<w:tr xmlns:w="http://schemas.openxmlformats.org/wordprocessingml/2006/main"><w:trPr><w:tblHeader/></w:trPr><w:tc><w:p><w:r><w:t>h</w:t></w:r></w:p></w:tc></w:tr>"#,
    );
    reader.next_start_tag().expect("expected start tag");
    let mut header_band_active = true;
    reader.parse_tr(&mut header_band_active)
        .expect("tr parses");

    assert!(header_band_active);
    assert_eq!(
        reader.take_queued(),
        vec![
            Event::StartTableRow { id: None },
            start_header(None),
            start_para(),
            Event::Text {
                content: "h".to_string(),
            },
            Event::EndParagraph,
            Event::EndTableHeader,
            Event::EndTableRow,
        ]
    );
}

#[test]
fn parse_tr_second_trpr_is_ignored() {
    let mut reader = make_reader(
        r#"<w:tr xmlns:w="http://schemas.openxmlformats.org/wordprocessingml/2006/main"><w:trPr><w:tblHeader/></w:trPr><w:trPr></w:trPr><w:tc><w:p><w:r><w:t>h</w:t></w:r></w:p></w:tc></w:tr>"#,
    );
    reader.next_start_tag().expect("expected start tag");
    let mut header_band_active = true;
    reader.parse_tr(&mut header_band_active)
        .expect("tr parses");

    assert!(header_band_active);
    assert_eq!(
        reader.take_queued(),
        vec![
            Event::StartTableRow { id: None },
            start_header(None),
            start_para(),
            Event::Text {
                content: "h".to_string(),
            },
            Event::EndParagraph,
            Event::EndTableHeader,
            Event::EndTableRow,
        ]
    );
}

#[test]
fn parse_tr_data_row_closes_band() {
    let mut reader = make_reader(
        r#"<w:tr xmlns:w="http://schemas.openxmlformats.org/wordprocessingml/2006/main"><w:tc><w:p><w:r><w:t>d</w:t></w:r></w:p></w:tc></w:tr>"#,
    );
    reader.next_start_tag().expect("expected start tag");
    let mut header_band_active = true;
    reader.parse_tr(&mut header_band_active)
        .expect("tr parses");

    assert!(!header_band_active);
    assert_eq!(
        reader.take_queued(),
        vec![
            Event::StartTableRow { id: None },
            start_cell(None),
            start_para(),
            Event::Text {
                content: "d".to_string(),
            },
            Event::EndParagraph,
            Event::EndTableCell,
            Event::EndTableRow,
        ]
    );
}

#[test]
fn parse_tr_after_band_closed() {
    let mut reader = make_reader(
        r#"<w:tr xmlns:w="http://schemas.openxmlformats.org/wordprocessingml/2006/main"><w:trPr><w:tblHeader/></w:trPr><w:tc><w:p><w:r><w:t>d</w:t></w:r></w:p></w:tc></w:tr>"#,
    );
    reader.next_start_tag().expect("expected start tag");
    let mut header_band_active = false;
    reader.parse_tr(&mut header_band_active)
        .expect("tr parses");

    assert!(!header_band_active);
    assert_eq!(
        reader.take_queued(),
        vec![
            Event::StartTableRow { id: None },
            start_cell(None),
            start_para(),
            Event::Text {
                content: "d".to_string(),
            },
            Event::EndParagraph,
            Event::EndTableCell,
            Event::EndTableRow,
        ]
    );
}

#[test]
fn parse_rpr_empty_returns_default() {
    let props = parse_rpr_fragment(
        r#"<w:rPr xmlns:w="http://schemas.openxmlformats.org/wordprocessingml/2006/main"></w:rPr>"#,
    );

    assert_eq!(props.kinds, Vec::<TextStyleKind>::new());
    assert_eq!(props.text_color, None);
    assert_eq!(props.mark, None);
    assert_eq!(props.font, None);
}

#[test]
fn parse_rpr_accumulates_bold_italic() {
    let props = parse_rpr_fragment(
        r#"<w:rPr xmlns:w="http://schemas.openxmlformats.org/wordprocessingml/2006/main"><w:b/><w:i/></w:rPr>"#,
    );

    assert_eq!(
        props.kinds,
        vec![TextStyleKind::Bold, TextStyleKind::Italic]
    );
    assert_eq!(props.text_color, None);
    assert_eq!(props.mark, None);
    assert_eq!(props.font, None);
}

#[test]
fn parse_rpr_highlight_over_shading() {
    let props = parse_rpr_fragment(
        r#"<w:rPr xmlns:w="http://schemas.openxmlformats.org/wordprocessingml/2006/main"><w:highlight w:val="yellow"/><w:shd w:val="clear" w:fill="FF0000"/></w:rPr>"#,
    );

    assert_eq!(props.kinds, Vec::<TextStyleKind>::new());
    assert_eq!(props.text_color, None);
    assert_eq!(
        props.mark,
        Some(Color::Rgb {
            r: 255,
            g: 255,
            b: 0,
        })
    );
    assert_eq!(props.font, None);
}

/// Checks that every table, row and cell the events open is closed, the
/// innermost first.
fn table_structure_nested(events: &[Event]) -> bool {
    let mut owed: Vec<&'static str> = Vec::new();
    for e in events {
        let (open, close) = match e {
            Event::StartTable { .. } => (Some("table"), None),
            Event::StartTableRow { .. } => (Some("row"), None),
            Event::StartTableCell { .. } => (Some("cell"), None),
            Event::StartTableHeader { .. } => (Some("header"), None),
            Event::EndTable => (None, Some("table")),
            Event::EndTableRow => (None, Some("row")),
            Event::EndTableCell => (None, Some("cell")),
            Event::EndTableHeader => (None, Some("header")),
            _ => (None, None),
        };
        if let Some(o) = open {
            owed.push(o);
        }
        if let Some(c) = close {
            if owed.pop() != Some(c) {
                return false;
            }
        }
    }
    owed.is_empty()
}

#[test]
fn nested_tables_close_in_order() {
    let mut r = make_reader(&document_with_body(
        "<w:tbl><w:tr><w:trPr><w:tblHeader/></w:trPr><w:tc><w:tbl><w:tr><w:tc/><w:tc><w:p/></w:tc></w:tr><w:tr/></w:tbl></w:tc></w:tr>\
         <w:tr><w:tc><w:p><w:r><w:t>x</w:t></w:r></w:p></w:tc></w:tr></w:tbl><w:p/>",
    ));
    let events = collect_events(&mut r);
    assert!(matches!(events.last(), Some(Event::EndDocument)));
    assert!(table_structure_nested(&events));
    let opened = events.iter().filter(|e| matches!(e, Event::StartTable { .. })).count();
    assert_eq!(opened, 2);
    let headers = events.iter().filter(|e| matches!(e, Event::StartTableHeader { .. })).count();
    assert_eq!(headers, 1);
}

#[test]
fn reader_stays_finished_after_end_document() {
    let mut r = make_reader(&document_with_body("<w:p/>"));
    let events = collect_events(&mut r);
    assert!(matches!(events.last(), Some(Event::EndDocument)));
    assert!(matches!(r.next_event(), Ok(None)));
    assert!(matches!(r.next_event(), Ok(None)));
}

#[test]
fn parse_tr_without_cells_queues_nothing() {
    let mut reader = make_reader(
        r#"<w:tr xmlns:w="http://schemas.openxmlformats.org/wordprocessingml/2006/main"><w:trPr><w:tblHeader/></w:trPr></w:tr>"#,
    );
    reader.next_start_tag().expect("expected start tag");
    let mut header_band_active = true;
    reader.parse_tr(&mut header_band_active).expect("tr parses");
    assert!(header_band_active);
    assert_eq!(reader.take_queued(), Vec::<Event>::new());
}

#[test]
fn unclosed_skipped_element_reports_the_missing_end_tag() {
    let mut r = make_reader(
        r#"<w:document xmlns:w="http://schemas.openxmlformats.org/wordprocessingml/2006/main"><w:body><w:del><w:r>"#,
    );
    assert!(matches!(r.next_event(), Ok(Some(Event::StartDocument { .. }))));
    match r.next_event() {
        Err(docx_reader::events::DocxError::Parse { message, .. }) => assert_eq!(
            message,
            "malformed document.xml: ill-formed document: start tag not closed: `</w:del>` not found before end of input"
        ),
        other => panic!("unexpected: {other:?}"),
    }
}

#[test]
fn parse_tc_without_content_is_one_start_end_pair() {
    let mut reader = make_reader(
        r#"<w:tc xmlns:w="http://schemas.openxmlformats.org/wordprocessingml/2006/main"><w:tcPr><w:gridSpan w:val="3"/></w:tcPr></w:tc>"#,
    );
    reader.next_start_tag().expect("expected start tag");
    reader.parse_tc(false).expect("tc parses");
    assert_eq!(
        reader.take_queued(),
        vec![Event::StartTableCell { colspan: Some(3), rowspan: None, id: None }, Event::EndTableCell]
    );
}

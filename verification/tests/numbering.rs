use docx_reader::events::{DocxError, ListStyleType};
use docx_reader::numbering::{parse_numbering, LevelOutcome, ListLookupResult, MinimalNumbering};

fn parse_ok(xml: &[u8]) -> MinimalNumbering {
    let result = parse_numbering(xml.to_vec());
    assert_eq!(result.is_ok(), true);
    result.unwrap()
}

#[test]
fn resolve_returns_not_list_for_num_id_zero() {
    let numbering = MinimalNumbering::new();

    let result = numbering.resolve(0, 0);

    assert!(!result.is_list);
    assert!(result.is_ordered);
    assert_eq!(result.style_type, ListStyleType::Decimal);
}

#[test]
fn resolve_returns_not_list_for_unknown_num_id() {
    let numbering = MinimalNumbering::new();

    let result = numbering.resolve(999, 0);

    assert!(!result.is_list);
    assert!(result.is_ordered);
    assert_eq!(result.style_type, ListStyleType::Decimal);
}

#[test]
fn resolve_returns_decimal_for_unknown_abstract_num_id() {
    let mut numbering = MinimalNumbering::new();
    numbering.link_num(1, 999);

    let result = numbering.resolve(1, 0);

    assert!(result.is_list);
    assert!(result.is_ordered);
    assert_eq!(result.style_type, ListStyleType::Decimal);
}

#[test]
fn resolve_returns_decimal_for_missing_ilvl_slot() {
    let mut numbering = MinimalNumbering::new();
    numbering.link_num(1, 1);
    numbering.insert_abstract_levels(1, core::array::from_fn(|_| None));

    let result = numbering.resolve(1, 0);

    assert!(result.is_list);
    assert!(result.is_ordered);
    assert_eq!(result.style_type, ListStyleType::Decimal);
}

#[test]
fn resolve_returns_not_list_for_not_a_list_slot() {
    let mut numbering = MinimalNumbering::new();
    numbering.link_num(1, 1);
    let mut levels = core::array::from_fn(|_| None);
    levels[0] = Some(LevelOutcome::NotAList);
    numbering.insert_abstract_levels(1, levels);

    let result = numbering.resolve(1, 0);

    assert!(!result.is_list);
    assert!(result.is_ordered);
    assert_eq!(result.style_type, ListStyleType::Decimal);
}

#[test]
fn resolve_returns_lower_alpha_for_level_with_lower_alpha() {
    let mut numbering = MinimalNumbering::new();
    numbering.link_num(1, 1);
    let mut levels = core::array::from_fn(|_| None);
    levels[0] = Some(LevelOutcome::List(ListStyleType::LowerAlpha));
    numbering.insert_abstract_levels(1, levels);

    let result = numbering.resolve(1, 0);

    assert!(result.is_list);
    assert!(result.is_ordered);
    assert_eq!(result.style_type, ListStyleType::LowerAlpha);
}

#[test]
fn resolve_returns_correct_style_for_each_variant() {
    let test_cases = vec![
        (ListStyleType::Decimal, true),
        (ListStyleType::LowerAlpha, true),
        (ListStyleType::UpperAlpha, true),
        (ListStyleType::LowerRoman, true),
        (ListStyleType::UpperRoman, true),
        (ListStyleType::Disc, false),
        (ListStyleType::Circle, false),
        (ListStyleType::Square, false),
    ];

    for (style, expected_ordered) in test_cases {
        let mut numbering = MinimalNumbering::new();
        numbering.link_num(1, 1);
        let mut levels = core::array::from_fn(|_| None);
        levels[0] = Some(LevelOutcome::List(style));
        numbering.insert_abstract_levels(1, levels);

        let result = numbering.resolve(1, 0);

        assert!(result.is_list, "Failed for style: {style:?}");
        assert_eq!(
            result.is_ordered, expected_ordered,
            "Failed for style: {style:?}"
        );
        assert_eq!(result.style_type, style, "Failed for style: {style:?}");
    }
}

#[test]
fn resolve_clamps_ilvl_above_eight() {
    let mut numbering = MinimalNumbering::new();
    numbering.link_num(1, 1);
    let mut levels = core::array::from_fn(|_| None);
    levels[8] = Some(LevelOutcome::List(ListStyleType::UpperRoman));
    numbering.insert_abstract_levels(1, levels);

    let result = numbering.resolve(1, 15);

    assert!(result.is_list);
    assert!(result.is_ordered);
    assert_eq!(result.style_type, ListStyleType::UpperRoman);
}

#[test]
fn parse_numbering_returns_empty_for_empty_xml() {
    let xml = br#"<w:numbering xmlns:w="http://schemas.openxmlformats.org/wordprocessingml/2006/main"/>"#;

    let numbering = parse_ok(&xml[..]);

    assert_eq!(numbering.abstract_count(), 0);
    assert_eq!(numbering.num_count(), 0);
}

#[test]
fn parse_numbering_loads_single_bullet_definition() {
    let xml = br#"
        <w:numbering xmlns:w="http://schemas.openxmlformats.org/wordprocessingml/2006/main">
            <w:abstractNum w:abstractNumId="7">
                <w:lvl w:ilvl="0"><w:numFmt w:val="bullet"/></w:lvl>
            </w:abstractNum>
            <w:num w:numId="42"><w:abstractNumId w:val="7"/></w:num>
        </w:numbering>
    "#;

    let numbering = parse_ok(&xml[..]);
    let result = numbering.resolve(42, 0);

    assert_eq!(
        result,
        ListLookupResult {
            is_list: true,
            is_ordered: false,
            style_type: ListStyleType::Disc,
        }
    );
}

#[test]
fn parse_numbering_handles_mixed_format_levels() {
    let xml = br#"
        <w:numbering xmlns:w="http://schemas.openxmlformats.org/wordprocessingml/2006/main">
            <w:abstractNum w:abstractNumId="3">
                <w:lvl w:ilvl="0"><w:numFmt w:val="decimal"/></w:lvl>
                <w:lvl w:ilvl="1"><w:numFmt w:val="bullet"/></w:lvl>
                <w:lvl w:ilvl="2"><w:numFmt w:val="lowerLetter"/></w:lvl>
            </w:abstractNum>
            <w:num w:numId="9"><w:abstractNumId w:val="3"/></w:num>
        </w:numbering>
    "#;

    let numbering = parse_ok(&xml[..]);

    assert_eq!(
        numbering.resolve(9, 0),
        ListLookupResult {
            is_list: true,
            is_ordered: true,
            style_type: ListStyleType::Decimal,
        }
    );
    assert_eq!(
        numbering.resolve(9, 1),
        ListLookupResult {
            is_list: true,
            is_ordered: false,
            style_type: ListStyleType::Disc,
        }
    );
    assert_eq!(
        numbering.resolve(9, 2),
        ListLookupResult {
            is_list: true,
            is_ordered: true,
            style_type: ListStyleType::LowerAlpha,
        }
    );
}

#[test]
fn parse_numbering_skips_malformed_elements() {
    let xml = br#"
        <w:numbering xmlns:w="http://schemas.openxmlformats.org/wordprocessingml/2006/main">
            <w:abstractNum>
                <w:lvl w:ilvl="0"><w:numFmt w:val="bullet"/></w:lvl>
            </w:abstractNum>
            <w:abstractNum w:abstractNumId="2">
                <w:lvl w:ilvl="not-a-number"><w:numFmt w:val="bullet"/></w:lvl>
            </w:abstractNum>
            <w:num w:numId="5"></w:num>
        </w:numbering>
    "#;

    let numbering = parse_ok(&xml[..]);

    assert_eq!(numbering.abstract_count(), 0);
    assert_eq!(numbering.num_count(), 0);
    assert_eq!(
        numbering.resolve(5, 0),
        ListLookupResult {
            is_list: false,
            is_ordered: true,
            style_type: ListStyleType::Decimal,
        }
    );
}

#[test]
fn parse_numbering_returns_err_on_truncated_xml() {
    let xml = br#"<w:numbering xmlns:w="http://schemas.openxmlformats.org/wordprocessingml/2006/main"><w:abstractNum w:abstractNumId="1"><w:lvl"#;

    let result = parse_numbering(xml.to_vec());

    assert!(matches!(result, Err(DocxError::Parse { .. })));
}

#[test]
fn parse_numbering_defaults_missing_numfmt_to_decimal() {
    let xml = br#"
        <w:numbering xmlns:w="http://schemas.openxmlformats.org/wordprocessingml/2006/main">
            <w:abstractNum w:abstractNumId="1">
                <w:lvl w:ilvl="0"></w:lvl>
            </w:abstractNum>
            <w:num w:numId="1"><w:abstractNumId w:val="1"/></w:num>
        </w:numbering>
    "#;

    let numbering = parse_ok(&xml[..]);

    assert_eq!(
        numbering.resolve(1, 0),
        ListLookupResult {
            is_list: true,
            is_ordered: true,
            style_type: ListStyleType::Decimal,
        }
    );
}

#[test]
fn parse_numbering_handles_multiple_abstract_nums_and_nums() {
    let xml = br#"
        <w:numbering xmlns:w="http://schemas.openxmlformats.org/wordprocessingml/2006/main">
            <w:abstractNum w:abstractNumId="1"><w:lvl w:ilvl="0"><w:numFmt w:val="decimal"/></w:lvl></w:abstractNum>
            <w:abstractNum w:abstractNumId="2"><w:lvl w:ilvl="0"><w:numFmt w:val="bullet"/></w:lvl></w:abstractNum>
            <w:abstractNum w:abstractNumId="3"><w:lvl w:ilvl="0"><w:numFmt w:val="upperRoman"/></w:lvl></w:abstractNum>
            <w:num w:numId="11"><w:abstractNumId w:val="1"/></w:num>
            <w:num w:numId="22"><w:abstractNumId w:val="2"/></w:num>
            <w:num w:numId="33"><w:abstractNumId w:val="3"/></w:num>
        </w:numbering>
    "#;

    let numbering = parse_ok(&xml[..]);

    assert_eq!(
        numbering.resolve(11, 0),
        ListLookupResult {
            is_list: true,
            is_ordered: true,
            style_type: ListStyleType::Decimal,
        }
    );
    assert_eq!(
        numbering.resolve(22, 0),
        ListLookupResult {
            is_list: true,
            is_ordered: false,
            style_type: ListStyleType::Disc,
        }
    );
    assert_eq!(
        numbering.resolve(33, 0),
        ListLookupResult {
            is_list: true,
            is_ordered: true,
            style_type: ListStyleType::UpperRoman,
        }
    );
}

#[test]
fn parse_numbering_ignores_lvl_outside_abstract_num() {
    let xml = br#"
        <w:numbering xmlns:w="http://schemas.openxmlformats.org/wordprocessingml/2006/main">
            <w:lvl w:ilvl="0"><w:numFmt w:val="bullet"/></w:lvl>
        </w:numbering>
    "#;

    let numbering = parse_ok(&xml[..]);

    assert_eq!(numbering.abstract_count(), 0);
    assert_eq!(numbering.num_count(), 0);
}

#[test]
fn parse_numbering_ignores_abstract_num_id_outside_num() {
    let xml = br#"
        <w:numbering xmlns:w="http://schemas.openxmlformats.org/wordprocessingml/2006/main">
            <w:abstractNumId w:val="9"/>
        </w:numbering>
    "#;

    let numbering = parse_ok(&xml[..]);

    assert_eq!(numbering.abstract_count(), 0);
    assert_eq!(numbering.num_count(), 0);
}

#[test]
fn resolve_returns_decimal_when_abstract_num_id_not_in_abstract_levels() {
    let xml = r#"<?xml version="1.0" encoding="UTF-8"?>
<w:numbering xmlns:w="http://schemas.openxmlformats.org/wordprocessingml/2006/main">
  <w:num w:numId="1">
<w:abstractNumId w:val="99"/>
  </w:num>
</w:numbering>"#;
    let numbering = parse_ok(xml.as_bytes());
    let result = numbering.resolve(1, 0);
    assert!(result.is_list);
    assert!(result.is_ordered);
    assert_eq!(result.style_type, ListStyleType::Decimal);
}

#[test]
fn resolve_returns_decimal_when_ilvl_not_defined_in_levels() {
    let xml = r#"<?xml version="1.0" encoding="UTF-8"?>
<w:numbering xmlns:w="http://schemas.openxmlformats.org/wordprocessingml/2006/main">
  <w:abstractNum w:abstractNumId="1">
<w:lvl w:ilvl="0"><w:numFmt w:val="decimal"/></w:lvl>
  </w:abstractNum>
  <w:num w:numId="1"><w:abstractNumId w:val="1"/></w:num>
</w:numbering>"#;
    let numbering = parse_ok(xml.as_bytes());
    let result = numbering.resolve(1, 5);
    assert!(result.is_list);
    assert!(result.is_ordered);
    assert_eq!(result.style_type, ListStyleType::Decimal);
}

#[test]
fn default_creates_empty_numbering() {
    let numbering = MinimalNumbering::default();
    let result = numbering.resolve(1, 0);
    assert!(!result.is_list);
}

#[test]
fn debug_format_includes_struct_name() {
    let numbering = MinimalNumbering::new();
    let debug_str = format!("{numbering:?}");
    assert!(debug_str.contains("MinimalNumbering"));
}

#[test]
fn parse_numbering_handles_non_self_closing_num_fmt() {
    let xml = r#"<?xml version="1.0" encoding="UTF-8"?>
<w:numbering xmlns:w="http://schemas.openxmlformats.org/wordprocessingml/2006/main">
  <w:abstractNum w:abstractNumId="1">
<w:lvl w:ilvl="0">
  <w:numFmt w:val="bullet"></w:numFmt>
</w:lvl>
  </w:abstractNum>
  <w:num w:numId="1"><w:abstractNumId w:val="1"/></w:num>
</w:numbering>"#;
    let numbering = parse_ok(xml.as_bytes());
    let result = numbering.resolve(1, 0);
    assert!(result.is_list);
    assert!(!result.is_ordered);
    assert_eq!(result.style_type, ListStyleType::Disc);
}

#[test]
fn parse_numbering_handles_non_self_closing_abstract_num_id() {
    let xml = r#"<?xml version="1.0" encoding="UTF-8"?>
<w:numbering xmlns:w="http://schemas.openxmlformats.org/wordprocessingml/2006/main">
  <w:abstractNum w:abstractNumId="1">
<w:lvl w:ilvl="0"><w:numFmt w:val="decimal"/></w:lvl>
  </w:abstractNum>
  <w:num w:numId="1">
<w:abstractNumId w:val="1"></w:abstractNumId>
  </w:num>
</w:numbering>"#;
    let numbering = parse_ok(xml.as_bytes());
    let result = numbering.resolve(1, 0);
    assert!(result.is_list);
    assert!(result.is_ordered);
}

#[test]
fn parse_numbering_returns_err_on_close_tag_depth_underflow() {
    let xml = r#"<?xml version="1.0" encoding="UTF-8"?>
<w:numbering xmlns:w="http://schemas.openxmlformats.org/wordprocessingml/2006/main">
</w:numbering>
</w:extra>"#;
    let result = parse_numbering(xml.as_bytes().to_vec());
    assert!(result.is_err());
}

#[test]
fn parse_numbering_returns_err_on_unclosed_elements_at_eof() {
    let xml = r#"<?xml version="1.0" encoding="UTF-8"?>
<w:numbering xmlns:w="http://schemas.openxmlformats.org/wordprocessingml/2006/main">
  <w:abstractNum w:abstractNumId="1">"#;
    let result = parse_numbering(xml.as_bytes().to_vec());
    assert!(result.is_err());
}

use legacy_doc::binary::ByteCursor;
use legacy_doc::lists::{LVLF_SIZE, parse_definitions, parse_level, parse_overrides};
use legacy_doc::{DocError, DocLimits, ListFollow, ResolvedListParagraph};

fn level(number_format: u8, text: &[u16], placeholders: &[u8]) -> Vec<u8> {
    let mut bytes = vec![0_u8; LVLF_SIZE];
    bytes[0..4].copy_from_slice(&1_i32.to_le_bytes());
    bytes[4] = number_format;
    bytes[15] = 1;
    bytes[6..6 + placeholders.len()].copy_from_slice(placeholders);
    bytes.extend_from_slice(&u16::try_from(text.len()).unwrap().to_le_bytes());
    for unit in text {
        bytes.extend_from_slice(&unit.to_le_bytes());
    }
    bytes
}

#[test]
fn parses_numeric_and_bullet_levels_and_converts_placeholders() {
    let numeric = level(0, &[0, u16::from(b'.'), 1, u16::from(b')')], &[1, 3]);
    let mut cursor = ByteCursor::new(&numeric, "test LVL");
    let parsed = parse_level(&mut cursor, 1).unwrap();
    assert_eq!(parsed.start_at, 1);
    assert_eq!(parsed.follow, ListFollow::Space);
    assert_eq!(parsed.ooxml_level_text(), "%1.%2)");

    let bullet = level(0x17, &[0xF0B7], &[]);
    let mut cursor = ByteCursor::new(&bullet, "test bullet LVL");
    let parsed = parse_level(&mut cursor, 0).unwrap();
    assert!(parsed.is_bullet());
    assert_eq!(parsed.ooxml_level_text(), "·");
}

#[test]
fn rejects_reserved_formats_bad_placeholders_and_trailing_overrides() {
    let reserved = level(0x08, &[0], &[1]);
    assert!(parse_level(&mut ByteCursor::new(&reserved, "test"), 0).is_err());
    let bad_placeholder = level(0, &[1], &[1]);
    assert!(parse_level(&mut ByteCursor::new(&bad_placeholder, "test"), 0).is_err());
    assert!(parse_overrides(&[0, 0, 0, 0, 1], 10, DocLimits::default()).is_err());
}

#[test]
fn level_reading_advances_past_text_and_rejects_bad_fields() {
    let numeric = level(0, &[0, u16::from(b'.')], &[1]);
    let mut cursor = ByteCursor::new(&numeric, "test");
    let parsed = parse_level(&mut cursor, 0).unwrap();
    assert_eq!(cursor.position(), numeric.len());
    assert_eq!(parsed.level_text, vec![0, u16::from(b'.')]);
    assert_eq!(parsed.justification, 0);
    assert!(parsed.paragraph_sprms.is_empty());

    let mut bad_follow = level(0, &[0], &[1]);
    bad_follow[15] = 3;
    assert!(matches!(parse_level(&mut ByteCursor::new(&bad_follow, "test"), 0), Err(DocError::InvalidList(_))));

    let mut bad_justification = level(0, &[0], &[1]);
    bad_justification[5] = 3;
    assert!(matches!(parse_level(&mut ByteCursor::new(&bad_justification, "test"), 0), Err(DocError::InvalidList(_))));

    let truncated = &numeric[..numeric.len() - 1];
    assert!(matches!(parse_level(&mut ByteCursor::new(truncated, "test"), 0), Err(DocError::OutOfBounds { .. })));
}

#[test]
fn parses_a_simple_definition_and_its_level() {
    let mut table = Vec::new();
    table.extend_from_slice(&1_u16.to_le_bytes());
    let mut lstf = vec![0_u8; 28];
    lstf[0..4].copy_from_slice(&7_i32.to_le_bytes());
    for index in 0..9 {
        lstf[8 + 2 * index..10 + 2 * index].copy_from_slice(&0x0FFF_u16.to_le_bytes());
    }
    lstf[26] = 0x01;
    table.extend_from_slice(&lstf);
    let header_length = u32::try_from(table.len()).unwrap();
    table.extend_from_slice(&level(0, &[0, u16::from(b'.')], &[1]));
    let definitions = parse_definitions(&table, 0, header_length, DocLimits::default()).unwrap();
    assert_eq!(definitions.len(), 1);
    assert_eq!(definitions[0].lsid, 7);
    assert!(definitions[0].simple);
    assert!(!definitions[0].hybrid);
    assert_eq!(definitions[0].paragraph_styles, [0x0FFF; 9]);
    assert_eq!(definitions[0].levels.len(), 1);
    assert_eq!(definitions[0].levels[0].ooxml_level_text(), "%1.");

    let mut reserved = table.clone();
    reserved[2..6].copy_from_slice(&(-1_i32).to_le_bytes());
    assert!(matches!(
        parse_definitions(&reserved, 0, header_length, DocLimits::default()),
        Err(DocError::InvalidList(_))
    ));
    let limits = DocLimits { max_lists: 0, ..DocLimits::default() };
    assert!(matches!(
        parse_definitions(&table, 0, header_length, limits),
        Err(DocError::ResourceLimit { resource: "list definition", .. })
    ));
}

#[test]
fn parses_override_start_values_and_first_cps() {
    let mut bytes = Vec::new();
    bytes.extend_from_slice(&1_u32.to_le_bytes());
    let mut lfo = vec![0_u8; 16];
    lfo[0..4].copy_from_slice(&7_i32.to_le_bytes());
    lfo[12] = 1;
    bytes.extend_from_slice(&lfo);
    bytes.extend_from_slice(&3_u32.to_le_bytes());
    bytes.extend_from_slice(&5_i32.to_le_bytes());
    bytes.extend_from_slice(&(0x10_u32 | 2).to_le_bytes());
    let overrides = parse_overrides(&bytes, 10, DocLimits::default()).unwrap();
    assert_eq!(overrides.len(), 1);
    assert_eq!(overrides[0].num_id, 1);
    assert_eq!(overrides[0].lsid, 7);
    assert_eq!(overrides[0].first_cp, Some(3));
    assert_eq!(overrides[0].levels.len(), 1);
    assert_eq!(overrides[0].levels[0].level, 2);
    assert_eq!(overrides[0].levels[0].start_at, Some(5));
    assert!(overrides[0].levels[0].formatting.is_none());

    let mut outside = bytes.clone();
    outside[20..24].copy_from_slice(&10_u32.to_le_bytes());
    assert!(matches!(parse_overrides(&outside, 10, DocLimits::default()), Err(DocError::InvalidList(_))));
    let mut absent = bytes.clone();
    absent[20..24].copy_from_slice(&u32::MAX.to_le_bytes());
    assert_eq!(parse_overrides(&absent, 10, DocLimits::default()).unwrap()[0].first_cp, None);
}

#[test]
fn builds_list_projection_markers() {
    let paragraph = ResolvedListParagraph { cp: 0x1A, num_id: 3, level: 2, preserve_indents: false };
    assert_eq!(paragraph.projection_marker(), "\u{F0000}DOCS_VIEWER_WASM_LIST_0000001A_00000003_02\u{F0001}");
}

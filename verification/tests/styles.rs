use legacy_doc::styles::{NO_BASE_STYLE, STSHIF_SIZE};
use legacy_doc::{
    CharacterPropertyDelta, DocError, DocLimits, LogicalFormattingRun, PiecePropertyModifier, SemanticCharacterRun,
    SemanticFormattingIndex, Sprm, StyleKind, StyleSheet, ToggleValue, decode_grpprl,
};

fn stylesheet(nonempty: &[Vec<u8>]) -> Vec<u8> {
    let mut stshi = vec![0_u8; STSHIF_SIZE];
    stshi[0..2].copy_from_slice(&15_u16.to_le_bytes());
    stshi[2..4].copy_from_slice(&10_u16.to_le_bytes());
    stshi[4..6].copy_from_slice(&1_u16.to_le_bytes());
    stshi[8..10].copy_from_slice(&15_u16.to_le_bytes());
    stshi[12..14].copy_from_slice(&1_i16.to_le_bytes());
    stshi[14..16].copy_from_slice(&2_i16.to_le_bytes());
    stshi[16..18].copy_from_slice(&3_i16.to_le_bytes());
    let mut result = Vec::new();
    result.extend_from_slice(&u16::try_from(STSHIF_SIZE).unwrap().to_le_bytes());
    result.extend_from_slice(&stshi);
    for index in 0..15 {
        if let Some(style) = nonempty.get(index) {
            result.extend_from_slice(&i16::try_from(style.len()).unwrap().to_le_bytes());
            result.extend_from_slice(style);
            if style.len() % 2 != 0 {
                result.push(0);
            }
        } else {
            result.extend_from_slice(&0_i16.to_le_bytes());
        }
    }
    result
}

fn paragraph_style(index: u16, base: u16, name: &str, chpx: &[u8], papx: &[u8]) -> Vec<u8> {
    let mut result = vec![0_u8; 10];
    result[0..2].copy_from_slice(&(0x0FFE_u16).to_le_bytes());
    result[2..4].copy_from_slice(&((base << 4) | 1).to_le_bytes());
    result[4..6].copy_from_slice(&((index << 4) | 2).to_le_bytes());
    let utf16 = name.encode_utf16().collect::<Vec<_>>();
    result.extend_from_slice(&u16::try_from(utf16.len()).unwrap().to_le_bytes());
    for unit in utf16 {
        result.extend_from_slice(&unit.to_le_bytes());
    }
    result.extend_from_slice(&0_u16.to_le_bytes());
    let mut upx_papx = index.to_le_bytes().to_vec();
    upx_papx.extend_from_slice(papx);
    push_upx(&mut result, &upx_papx);
    push_upx(&mut result, chpx);
    let size = u16::try_from(result.len()).unwrap();
    result[6..8].copy_from_slice(&size.to_le_bytes());
    result
}

fn push_upx(output: &mut Vec<u8>, bytes: &[u8]) {
    output.extend_from_slice(&u16::try_from(bytes.len()).unwrap().to_le_bytes());
    output.extend_from_slice(bytes);
    if !bytes.len().is_multiple_of(2) {
        output.push(0);
    }
}

#[test]
fn parses_styles_and_applies_base_before_child() {
    let sheet = StyleSheet::parse_bytes(
        &stylesheet(&[
            paragraph_style(0, NO_BASE_STYLE, "Normal", &[0x35, 0x08, 0], &[]),
            paragraph_style(1, 0, "Heading 1", &[0x35, 0x08, 1], &[0x05, 0x24, 1]),
        ]),
        DocLimits::default(),
    )
    .unwrap();
    assert_eq!(sheet.styles().len(), 15);
    assert_eq!(sheet.get(1).unwrap().name, "Heading 1");
    let inherited = sheet.inherited_properties(1).unwrap();
    assert_eq!(inherited.character.bold, Some(ToggleValue::On));
    assert_eq!(inherited.paragraph.keep_together, Some(true));
    assert_eq!(inherited.character_sprms.iter().map(|sprm| sprm.operand[0]).collect::<Vec<_>>(), [0, 1]);
}

#[test]
fn rejects_cycles_and_invalid_base_references() {
    let cycle = stylesheet(&[paragraph_style(0, 1, "A", &[], &[]), paragraph_style(1, 0, "B", &[], &[])]);
    assert!(matches!(StyleSheet::parse_bytes(&cycle, DocLimits::default()), Err(DocError::InvalidStyle(_))));

    let invalid = stylesheet(&[paragraph_style(0, 14, "A", &[], &[])]);
    assert!(matches!(StyleSheet::parse_bytes(&invalid, DocLimits::default()), Err(DocError::InvalidStyle(_))));
}

#[test]
fn exposes_default_fonts_and_depth_budget() {
    let bytes = stylesheet(&[
        paragraph_style(0, NO_BASE_STYLE, "Normal", &[], &[]),
        paragraph_style(1, 0, "Heading 1", &[], &[]),
    ]);
    let sheet = StyleSheet::parse_bytes(&bytes, DocLimits::default()).unwrap();
    let fonts = sheet.default_fonts();
    assert_eq!((fonts.ascii, fonts.east_asian, fonts.other, fonts.bidi), (1, 2, 3, None));
    let sprms = sheet.default_character_sprms();
    assert_eq!(sprms.iter().map(|s| s.opcode).collect::<Vec<_>>(), [0x4A4F, 0x4A50, 0x4A51]);
    assert_eq!(sprms[1].operand, [2, 0]);
    assert_eq!(sheet.get(0).unwrap().kind, StyleKind::Paragraph);
    assert!(sheet.get(2).is_none());
    assert!(sheet.get(99).is_none());

    let mut shallow = DocLimits::default();
    shallow.max_style_depth = 1;
    assert!(matches!(StyleSheet::parse_bytes(&bytes, shallow), Err(DocError::ResourceLimit { .. })));
    // An empty name entry is rejected.
    let empty_alias = stylesheet(&[paragraph_style(0, NO_BASE_STYLE, "A,,B", &[], &[])]);
    assert!(matches!(StyleSheet::parse_bytes(&empty_alias, DocLimits::default()), Err(DocError::InvalidStyle(_))));
}

#[test]
fn styled_index_keeps_the_direct_runs() {
    let bytes = stylesheet(&[paragraph_style(0, NO_BASE_STYLE, "Normal", &[], &[])]);
    let sheet = StyleSheet::parse_bytes(&bytes, DocLimits::default()).unwrap();
    let sprms: Vec<Sprm> = decode_grpprl(&[0x35, 0x08, 1]).unwrap();
    let direct = SemanticFormattingIndex {
        character_runs: vec![SemanticCharacterRun {
            source: LogicalFormattingRun {
                cp_start: 0,
                cp_end: 3,
                file_start: 10,
                file_end: 13,
                paragraph_style: None,
                grpprl: vec![0x35, 0x08, 1],
                piece_prm: 0,
            },
            piece_modifier: PiecePropertyModifier::NoEffect,
            sprms,
            properties: CharacterPropertyDelta {
                bold: Some(ToggleValue::On),
                unsupported_opcodes: vec![7],
                ..CharacterPropertyDelta::default()
            },
        }],
        paragraph_runs: Vec::new(),
    };
    let styled = direct.apply_styles(&sheet).unwrap();
    assert_eq!(styled.direct, direct);
    assert_eq!(styled.character_runs.len(), 1);
    assert_eq!((styled.character_runs[0].cp_start, styled.character_runs[0].cp_end), (0, 3));
    assert_eq!(styled.character_runs[0].properties.bold, Some(ToggleValue::On));
}

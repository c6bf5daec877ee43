use legacy_doc::piece_table::{COMPRESSED_FLAG, RESERVED_FLAG};
use legacy_doc::sprm::Sprm;
use legacy_doc::{DocError, DocLimits, PieceEncoding, PiecePropertyModifier, PieceTable, PropertyGroup};

fn clx(cps: &[u32], pieces: &[(u32, u16)]) -> Vec<u8> {
    let mut plc = Vec::new();
    for cp in cps {
        plc.extend_from_slice(&cp.to_le_bytes());
    }
    for (fc, prm) in pieces {
        plc.extend_from_slice(&0_u16.to_le_bytes());
        plc.extend_from_slice(&fc.to_le_bytes());
        plc.extend_from_slice(&prm.to_le_bytes());
    }
    let mut clx = vec![0x02];
    clx.extend_from_slice(&u32::try_from(plc.len()).unwrap().to_le_bytes());
    clx.extend_from_slice(&plc);
    clx
}

#[test]
fn parses_mixed_pieces_and_decodes_cp_ranges() {
    let table = PieceTable::parse(
        &clx(&[0, 3, 6], &[(COMPRESSED_FLAG | 0x28, 7), (100, 9)]),
        6,
        DocLimits::default(),
    )
    .unwrap();
    assert_eq!(table.pieces()[0].file_offset, 20);
    assert_eq!(table.pieces()[0].encoding, PieceEncoding::Compressed);
    assert_eq!(table.pieces()[1].encoding, PieceEncoding::Utf16);

    let mut word = vec![0_u8; 106];
    word[20..23].copy_from_slice(&[b'A', 0x93, b'B']);
    word[100..106].copy_from_slice(&[0x1F, 0x04, 0x40, 0x04, 0x38, 0x04]);
    table.validate_word_bounds(word.len()).unwrap();
    let text = table.decode_range(&word, 1, 5).unwrap();
    assert_eq!(text.cp_start, 1);
    assert_eq!(text.utf16, [0x201C, u16::from(b'B'), 0x041F, 0x0440]);
    assert_eq!(text.text, "“BПр");
}

#[test]
fn retains_property_groups_and_requires_exact_pcdt_length() {
    let mut prefixed = vec![0x01, 3, 0, 9, 8, 7];
    prefixed.extend_from_slice(&clx(&[0, 1], &[(COMPRESSED_FLAG, 0)]));
    let table = PieceTable::parse(&prefixed, 1, DocLimits::default()).unwrap();
    assert_eq!(table.property_groups(), &[vec![9, 8, 7]]);
    prefixed.push(0);
    assert!(matches!(
        PieceTable::parse(&prefixed, 1, DocLimits::default()),
        Err(DocError::InvalidPieceTable(_))
    ));
}

#[test]
fn resolves_simple_and_complex_piece_property_modifiers() {
    let mut data = vec![0x01, 3, 0, 0x36, 0x08, 1]; // Prc: italic on
    data.extend_from_slice(&clx(
        &[0, 1, 2],
        &[
            (COMPRESSED_FLAG, 0x01AA), // Prm0: isprm 0x55, bold on
            (COMPRESSED_FLAG | 2, 1),  // Prm1: RgPrc[0]
        ],
    ));
    let table = PieceTable::parse(&data, 2, DocLimits::default()).unwrap();
    let simple = table.resolve_prm(table.pieces()[0].prm).unwrap();
    assert!(matches!(
        simple,
        PiecePropertyModifier::Simple {
            isprm: 0x55,
            value: 1,
            sprm: Some(Sprm { opcode: 0x0835, .. })
        }
    ));
    let complex = table.resolve_prm(table.pieces()[1].prm).unwrap();
    assert!(matches!(
        complex,
        PiecePropertyModifier::Complex { index: 0, ref sprms }
            if sprms.len() == 1 && sprms[0].opcode == 0x0836
    ));
}

#[test]
fn retains_unknown_simple_prm_and_rejects_bad_complex_index() {
    let table = PieceTable::parse(
        &clx(&[0, 1], &[(COMPRESSED_FLAG, 0x0192)]),
        1,
        DocLimits::default(),
    )
    .unwrap();
    assert!(matches!(
        table.resolve_prm(0x0192).unwrap(),
        PiecePropertyModifier::Simple {
            isprm: 0x49,
            value: 1,
            sprm: None
        }
    ));
    assert!(matches!(
        table.resolve_prm(1),
        Err(DocError::InvalidPieceTable(_))
    ));
}

#[test]
fn rejects_duplicate_cp_reserved_fc_and_wrong_terminal_cp() {
    assert!(matches!(
        PieceTable::parse(
            &clx(&[0, 0], &[(COMPRESSED_FLAG, 0)]),
            0,
            DocLimits::default()
        ),
        Err(DocError::InvalidPieceTable(_))
    ));
    assert!(matches!(
        PieceTable::parse(
            &clx(&[0, 1], &[(RESERVED_FLAG, 0)]),
            1,
            DocLimits::default()
        ),
        Err(DocError::InvalidPieceTable(_))
    ));
    assert!(matches!(
        PieceTable::parse(
            &clx(&[0, 2], &[(COMPRESSED_FLAG, 0)]),
            3,
            DocLimits::default()
        ),
        Err(DocError::InvalidPieceTable(_))
    ));
}

#[test]
fn enforces_piece_budget_and_word_bounds() {
    let limits = DocLimits {
        max_pieces: 1,
        ..DocLimits::default()
    };
    assert!(matches!(
        PieceTable::parse(
            &clx(
                &[0, 1, 2],
                &[(COMPRESSED_FLAG, 0), (COMPRESSED_FLAG | 2, 0)]
            ),
            2,
            limits
        ),
        Err(DocError::ResourceLimit {
            resource: "text-piece",
            ..
        })
    ));

    let table = PieceTable::parse(
        &clx(&[0, 4], &[(COMPRESSED_FLAG | 0x14, 0)]),
        4,
        DocLimits::default(),
    )
    .unwrap();
    assert!(matches!(
        table.validate_word_bounds(12),
        Err(DocError::OutOfBounds { .. })
    ));
}

#[test]
fn zero_prm_has_no_effect_and_complex_prm_filters_by_group() {
    let mut data = vec![0x01, 6, 0, 0x36, 0x08, 1, 0x05, 0x24, 1];
    data.extend_from_slice(&clx(&[0, 1], &[(COMPRESSED_FLAG, 1)]));
    let table = PieceTable::parse(&data, 1, DocLimits::default()).unwrap();
    assert_eq!(table.resolve_prm(0).unwrap(), PiecePropertyModifier::NoEffect);
    let complex = table.resolve_prm(1).unwrap();
    let character = complex.sprms_for(PropertyGroup::Character);
    assert_eq!(character.len(), 1);
    assert_eq!(character[0].opcode, 0x0836);
    let paragraph = complex.sprms_for(PropertyGroup::Paragraph);
    assert_eq!(paragraph.len(), 1);
    assert_eq!(paragraph[0].opcode, 0x2405);
    assert!(complex.sprms_for(PropertyGroup::Table).is_empty());
}

#[test]
fn decoding_rejects_ranges_past_the_table_and_bytes_past_the_stream() {
    let table = PieceTable::parse(
        &clx(&[0, 2], &[(COMPRESSED_FLAG | 0x8, 0)]),
        2,
        DocLimits::default(),
    )
    .unwrap();
    assert!(matches!(
        table.decode_range(&[0; 8], 1, 3),
        Err(DocError::InvalidPieceTable(_))
    ));
    assert!(matches!(
        table.decode_range(&[0; 5], 0, 2),
        Err(DocError::OutOfBounds { .. })
    ));
    assert_eq!(table.decode_range(&[0, 0, 0, 0, 0x85, 0x41], 0, 2).unwrap().utf16, [0x2026, 0x41]);
}

#[test]
fn decoding_a_range_concatenates_its_halves() {
    let table = PieceTable::parse(
        &clx(&[0, 3, 6], &[(COMPRESSED_FLAG | 0x28, 7), (100, 9)]),
        6,
        DocLimits::default(),
    )
    .unwrap();
    let mut word = vec![0_u8; 106];
    word[20..23].copy_from_slice(&[b'A', 0x93, b'B']);
    word[100..106].copy_from_slice(&[0x1F, 0x04, 0x40, 0x04, 0x38, 0x04]);
    let whole = table.decode_range(&word, 0, 6).unwrap();
    for middle in 0..=6 {
        let left = table.decode_range(&word, 0, middle).unwrap();
        let right = table.decode_range(&word, middle, 6).unwrap();
        let mut joined = left.utf16.clone();
        joined.extend_from_slice(&right.utf16);
        assert_eq!(joined, whole.utf16);
        assert_eq!(format!("{}{}", left.text, right.text), whole.text);
    }
}

use legacy_doc::formatting::{
    decode_formatting_run, parse_bin_table, parse_chpx_fkp, parse_papx_fkp, BX_PAP_SIZE, FKP_SIZE,
};
use legacy_doc::{
    DocError, DocLimits, FormattingIndex, FormattingRun, LogicalFormattingIndex, LogicalFormattingRun, PieceTable,
    ToggleValue,
};

fn make_clx(cps: &[u32], pieces: &[(u32, u16)]) -> Vec<u8> {
    let mut plc = Vec::new();
    for cp in cps {
        plc.extend_from_slice(&cp.to_le_bytes());
    }
    for (fc, prm) in pieces {
        plc.extend_from_slice(&0_u16.to_le_bytes());
        plc.extend_from_slice(&fc.to_le_bytes());
        plc.extend_from_slice(&prm.to_le_bytes());
    }
    let mut clx = vec![0x02];
    clx.extend_from_slice(&u32::try_from(plc.len()).unwrap().to_le_bytes());
    clx.extend_from_slice(&plc);
    clx
}

#[test]
fn parses_character_fkp_and_rejects_bad_offsets() {
    let mut page = [0_u8; FKP_SIZE];
    page[..4].copy_from_slice(&100_u32.to_le_bytes());
    page[4..8].copy_from_slice(&120_u32.to_le_bytes());
    page[8] = 250;
    page[500] = 3;
    page[501..504].copy_from_slice(&[1, 2, 3]);
    page[511] = 1;
    let runs = parse_chpx_fkp(&page).unwrap();
    assert_eq!(runs[0].file_start, 100);
    assert_eq!(runs[0].file_end, 120);
    assert_eq!(runs[0].grpprl, [1, 2, 3]);

    page[8] = 1;
    assert!(matches!(parse_chpx_fkp(&page), Err(DocError::InvalidFormatting(_))));
}

#[test]
fn parses_normal_and_extended_papx_records() {
    let mut page = [0_u8; FKP_SIZE];
    for (index, boundary) in [10_u32, 20, 30].into_iter().enumerate() {
        page[index * 4..index * 4 + 4].copy_from_slice(&boundary.to_le_bytes());
    }
    let bx_start = 12;
    page[bx_start] = 200;
    page[bx_start + BX_PAP_SIZE] = 220;
    page[400] = 3;
    page[401..406].copy_from_slice(&[7, 0, 1, 2, 3]);
    page[440] = 0;
    page[441] = 2;
    page[442..446].copy_from_slice(&[9, 0, 4, 5]);
    page[511] = 2;

    let runs = parse_papx_fkp(&page).unwrap();
    assert_eq!(runs[0].paragraph_style, Some(7));
    assert_eq!(runs[0].grpprl, [1, 2, 3]);
    assert_eq!(runs[1].paragraph_style, Some(9));
    assert_eq!(runs[1].grpprl, [4, 5]);
}

#[test]
fn parses_bte_and_enforces_page_budget() {
    let mut plc = Vec::new();
    plc.extend_from_slice(&100_u32.to_le_bytes());
    plc.extend_from_slice(&200_u32.to_le_bytes());
    plc.extend_from_slice(&5_u32.to_le_bytes());
    let entries = parse_bin_table(&plc, DocLimits::default()).unwrap();
    assert_eq!(entries[0].page_number, 5);

    let limits = DocLimits { max_formatting_pages: 0, ..DocLimits::default() };
    assert!(matches!(
        parse_bin_table(&plc, limits),
        Err(DocError::ResourceLimit { resource: "formatting-page", .. })
    ));
}

#[test]
fn accepts_one_zero_papx_alignment_byte_without_weakening_other_grpprls() {
    let run = LogicalFormattingRun {
        cp_start: 10,
        cp_end: 11,
        file_start: 20,
        file_end: 21,
        paragraph_style: Some(0),
        grpprl: vec![0x07, 0x24, 1, 0],
        piece_prm: 0,
    };
    assert_eq!(decode_formatting_run(&run, "PAPX").unwrap().len(), 1);
    assert!(decode_formatting_run(&run, "CHPX").is_err());

    let malformed = LogicalFormattingRun { grpprl: vec![0x07, 0x24, 1, 0xFF], ..run };
    assert!(decode_formatting_run(&malformed, "PAPX").is_err());
}

#[test]
fn maps_compressed_and_utf16_fc_ranges_to_logical_cp_ranges() {
    let pieces =
        PieceTable::parse(&make_clx(&[0, 4, 7], &[(0x4000_0000 | 0x00C8, 3), (300, 5)]), 7, DocLimits::default())
            .unwrap();
    let index = FormattingIndex {
        character_runs: vec![
            FormattingRun { file_start: 100, file_end: 103, paragraph_style: None, grpprl: vec![1] },
            FormattingRun { file_start: 103, file_end: 104, paragraph_style: None, grpprl: vec![2] },
            FormattingRun { file_start: 300, file_end: 306, paragraph_style: None, grpprl: vec![3] },
        ],
        paragraph_runs: Vec::new(),
    };
    let logical = index.to_logical(&pieces).unwrap();
    assert_eq!(
        logical.character_runs.iter().map(|run| (run.cp_start, run.cp_end, run.piece_prm)).collect::<Vec<_>>(),
        [(0, 3, 3), (3, 4, 3), (4, 7, 5)]
    );
}

#[test]
fn rejects_fkp_boundary_inside_utf16_unit() {
    let pieces = PieceTable::parse(&make_clx(&[0, 2], &[(100, 0)]), 2, DocLimits::default()).unwrap();
    let index = FormattingIndex {
        character_runs: vec![FormattingRun { file_start: 100, file_end: 103, paragraph_style: None, grpprl: Vec::new() }],
        paragraph_runs: Vec::new(),
    };
    assert!(matches!(index.to_logical(&pieces), Err(DocError::InvalidFormatting(_))));
}

#[test]
fn applies_piece_prm_after_fkp_direct_formatting() {
    let pieces =
        PieceTable::parse(&make_clx(&[0, 2], &[(0x4000_0000 | 0x00C8, 0x01AA)]), 2, DocLimits::default()).unwrap();
    let logical = LogicalFormattingIndex {
        character_runs: vec![LogicalFormattingRun {
            cp_start: 0,
            cp_end: 2,
            file_start: 100,
            file_end: 102,
            paragraph_style: None,
            grpprl: vec![0x35, 0x08, 0], // FKP says bold off
            piece_prm: 0x01AA,           // PCD says bold on
        }],
        paragraph_runs: Vec::new(),
    };
    let semantic = logical.resolve_properties(&pieces).unwrap();
    assert_eq!(semantic.character_runs[0].properties.bold, Some(ToggleValue::On));
    assert_eq!(semantic.character_runs[0].sprms.iter().map(|sprm| sprm.opcode).collect::<Vec<_>>(), [0x0835, 0x0835]);
}

#[test]
fn rejects_overlong_chpx_and_empty_papx_counts() {
    let mut page = [0_u8; FKP_SIZE];
    page[..4].copy_from_slice(&100_u32.to_le_bytes());
    page[4..8].copy_from_slice(&120_u32.to_le_bytes());
    page[8] = 250;
    page[500] = 20; // 20 bytes from 501 overrun the count byte
    page[511] = 1;
    assert!(parse_chpx_fkp(&page).is_err());
    page[511] = 0;
    assert!(parse_papx_fkp(&page).is_err());
    assert!(parse_chpx_fkp(&page[..100]).is_err());
    // Decreasing BTE boundaries.
    let mut plc = Vec::new();
    plc.extend_from_slice(&200_u32.to_le_bytes());
    plc.extend_from_slice(&100_u32.to_le_bytes());
    plc.extend_from_slice(&5_u32.to_le_bytes());
    assert!(matches!(parse_bin_table(&plc, DocLimits::default()), Err(DocError::InvalidFormatting(_))));
}

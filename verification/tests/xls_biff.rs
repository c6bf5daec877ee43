use legacy_doc::xls_biff::{
    BOF, CellRange, ColumnBand, EOF, HyperlinkTarget, RowLayout, XlsLimits, parse_boundsheet, parse_colinfo,
    parse_dimensions, parse_font, parse_format, parse_hlink, parse_merges, parse_palette, parse_range, parse_row,
    parse_xf, parse_xl_chars, records, validate_range,
};

fn record(kind: u16, payload: &[u8]) -> Vec<u8> {
    let mut result = Vec::with_capacity(payload.len() + 4);
    result.extend_from_slice(&kind.to_le_bytes());
    result.extend_from_slice(&u16::try_from(payload.len()).expect("test record payload fits u16").to_le_bytes());
    result.extend_from_slice(payload);
    result
}

#[test]
fn record_iterator_rejects_truncation_and_limits() {
    assert!(records(&[0x09, 0x08, 0x04, 0x00, 0x00], 10).is_err());
    let bytes = [record(BOF, &[0, 6, 5, 0]), record(EOF, &[])].concat();
    assert!(records(&bytes, 1).is_err());
    assert_eq!(records(&bytes, 2).expect("records").len(), 2);
}

#[test]
fn record_iterator_keeps_payloads_offsets_and_skips_zero_padding() {
    let mut bytes = [record(BOF, &[0, 6, 5, 0]), record(0x1234, &[9, 8, 7]), record(EOF, &[])].concat();
    bytes.extend_from_slice(&[0, 0, 0]);
    let parsed = records(&bytes, 10).expect("records");
    assert_eq!(parsed.len(), 3);
    assert_eq!((parsed[1].kind, parsed[1].offset, parsed[1].data), (0x1234, 8, &[9_u8, 8, 7][..]));
    assert_eq!((parsed[2].kind, parsed[2].offset, parsed[2].data.len()), (EOF, 15, 0));
    bytes.push(1);
    assert!(records(&bytes, 10).is_err());
}

#[test]
fn distinguishes_worksheets_from_chart_sheets_without_dropping_hidden_sheets() {
    let mut worksheet = vec![0_u8; 8];
    worksheet[4] = 1;
    worksheet[6] = 1;
    worksheet.extend_from_slice(b"S");
    assert!(parse_boundsheet(&worksheet).expect("worksheet").is_worksheet);

    let mut chart = worksheet;
    chart[5] = 2;
    assert!(!parse_boundsheet(&chart).expect("chart").is_worksheet);
}

#[test]
fn parses_font_xf_palette_and_custom_format() {
    let mut font = vec![0; 16];
    font[0..2].copy_from_slice(&240_u16.to_le_bytes());
    font[2..4].copy_from_slice(&0x000A_u16.to_le_bytes());
    font[4..6].copy_from_slice(&10_u16.to_le_bytes());
    font[6..8].copy_from_slice(&700_u16.to_le_bytes());
    font[10] = 1;
    font[11] = 2;
    font[12] = 204;
    font[14] = 4;
    font[15] = 1;
    font.extend("Тест".encode_utf16().flat_map(u16::to_le_bytes));
    let parsed = parse_font(&font).expect("font");
    assert_eq!(parsed.name, "Тест");
    assert!(parsed.italic && parsed.strike);
    assert_eq!(parsed.weight, 700);

    let mut xf = [0_u8; 20];
    xf[0..2].copy_from_slice(&2_u16.to_le_bytes());
    xf[2..4].copy_from_slice(&164_u16.to_le_bytes());
    xf[6] = 0x2A; // center, wrap, vertical center
    xf[7] = 45;
    xf[8] = 0x91; // indent, shrink, RTL
    xf[10..14].copy_from_slice(&0x0504_4321_u32.to_le_bytes());
    let border2 = 9_u32 | (10_u32 << 7) | (1_u32 << 26);
    xf[14..18].copy_from_slice(&border2.to_le_bytes());
    xf[18..20].copy_from_slice(&(0x000C_u16 | (0x000D_u16 << 7)).to_le_bytes());
    let parsed = parse_xf(&xf).expect("xf");
    assert_eq!(parsed.horizontal, 2);
    assert!(parsed.wrap && parsed.shrink_to_fit);
    assert_eq!(parsed.border.left_style, 1);
    assert_eq!(parsed.fill.pattern, 1);

    let palette = [2, 0, 1, 2, 3, 0, 4, 5, 6, 0];
    assert_eq!(parse_palette(&palette).expect("palette"), vec![[1, 2, 3], [4, 5, 6]]);

    let mut format = vec![164, 0, 4, 0, 0];
    format.extend_from_slice(b"0.00");
    assert_eq!(parse_format(&format).expect("format"), (164, "0.00".into()));
}

#[test]
fn extracts_common_external_and_internal_hyperlinks_without_guessing() {
    let mut external = vec![0_u8; 36];
    external.extend("https://example.test/a".encode_utf16().flat_map(u16::to_le_bytes));
    external.extend_from_slice(&[0, 0]);
    assert!(matches!(parse_hlink(&external).expect("external").target, HyperlinkTarget::External(_)));

    let mut internal = vec![0_u8; 36];
    internal.extend("#Sheet2!A1".encode_utf16().flat_map(u16::to_le_bytes));
    internal.extend_from_slice(&[0, 0]);
    assert_eq!(parse_hlink(&internal).expect("internal").target, HyperlinkTarget::Internal("Sheet2!A1".into()));

    let mut unsupported = vec![0_u8; 36];
    unsupported.extend("file:///etc/passwd".encode_utf16().flat_map(u16::to_le_bytes));
    assert!(parse_hlink(&unsupported).is_err());
}

#[test]
fn hyperlinks_keep_the_text_up_to_nul_and_match_schemes_case_insensitively() {
    let mut link = vec![0_u8; 36];
    link[0..8].copy_from_slice(&[2, 0, 3, 0, 1, 0, 4, 0]);
    link.extend("\u{1}MAILTO:Someone@Example.test\u{7}".encode_utf16().flat_map(u16::to_le_bytes));
    link.extend_from_slice(&[0, 0]);
    link.extend("https://later.test".encode_utf16().flat_map(u16::to_le_bytes));
    let parsed = parse_hlink(&link).expect("link");
    assert_eq!(parsed.range, CellRange { first_row: 2, last_row: 3, first_col: 1, last_col: 4 });
    // The https scheme is tried first, wherever it occurs.
    assert_eq!(parsed.target, HyperlinkTarget::External("https://later.test".into()));

    let mut reversed = vec![0_u8; 36];
    reversed[0..2].copy_from_slice(&5_u16.to_le_bytes());
    reversed.extend("https://example.test".encode_utf16().flat_map(u16::to_le_bytes));
    assert!(parse_hlink(&reversed).is_err());
    assert!(parse_hlink(&[0_u8; 35]).is_err());
}

#[test]
fn reads_compressed_and_unicode_strings() {
    assert_eq!(parse_xl_chars(&[0x41, 0xE9, 0x42], 0, 2, false).unwrap(), "A\u{e9}");
    assert_eq!(parse_xl_chars(&[0, 0x41, 0, 0x42, 0], 1, 2, true).unwrap(), "AB");
    assert!(parse_xl_chars(&[0x41], 0, 2, false).is_err());
    assert!(parse_xl_chars(&[0x00, 0xD8], 0, 1, true).is_err());
    assert!(parse_xl_chars(&[], usize::MAX, 1, false).is_err());
}

#[test]
fn rejects_oversized_palettes_and_bad_xf_lengths() {
    let mut palette = vec![57, 0];
    palette.extend_from_slice(&[0; 57 * 4]);
    assert!(parse_palette(&palette).is_err());
    assert!(parse_palette(&[2, 0, 1, 2, 3, 0]).is_err());
    assert!(parse_palette(&[0]).is_err());
    assert!(parse_xf(&[0; 19]).is_err());
    assert!(parse_xf(&[0; 21]).is_err());
}

#[test]
fn parses_dimensions_columns_rows_and_merges() {
    let mut dimensions = [0_u8; 14];
    dimensions[0..4].copy_from_slice(&2_u32.to_le_bytes());
    dimensions[4..8].copy_from_slice(&10_u32.to_le_bytes());
    dimensions[8..10].copy_from_slice(&1_u16.to_le_bytes());
    dimensions[10..12].copy_from_slice(&4_u16.to_le_bytes());
    assert_eq!(
        parse_dimensions(&dimensions).unwrap(),
        Some(CellRange { first_row: 2, last_row: 9, first_col: 1, last_col: 3 })
    );
    dimensions[4..8].copy_from_slice(&2_u32.to_le_bytes());
    assert_eq!(parse_dimensions(&dimensions).unwrap(), None);
    dimensions[4..8].copy_from_slice(&65_537_u32.to_le_bytes());
    assert!(parse_dimensions(&dimensions).is_err());

    let col = [1, 0, 3, 0, 0, 8, 2, 0, 1, 0, 0, 0];
    assert_eq!(
        parse_colinfo(&col).unwrap(),
        Some(ColumnBand { first: 1, last: 3, width_units: 0x0800, hidden: true, xf: 2 })
    );
    let wide = [0, 1, 0, 1, 0, 8, 0, 0, 0, 0, 0, 0];
    assert_eq!(parse_colinfo(&wide).unwrap(), None);
    let clamped = [250, 0, 0, 1, 0, 8, 0, 0, 0, 0, 0, 0];
    assert_eq!(parse_colinfo(&clamped).unwrap().unwrap().last, 255);
    assert!(parse_colinfo(&[3, 0, 1, 0, 0, 0, 0, 0, 0, 0, 0, 0]).is_err());

    let mut row = [0_u8; 16];
    row[0..2].copy_from_slice(&7_u16.to_le_bytes());
    row[6..8].copy_from_slice(&(0x0258_u16 | 0x8000).to_le_bytes());
    row[12..16].copy_from_slice(&(0x20_u32 | 0x80 | (2_u32 << 16)).to_le_bytes());
    assert_eq!(
        parse_row(&row).unwrap(),
        (7, RowLayout { height_twips: 600, hidden: true, custom_height: true, xf: Some(2) })
    );

    let mut target = Vec::new();
    parse_merges(&[1, 0, 0, 0, 1, 0, 2, 0, 4, 0], &mut target, 10).expect("merge");
    assert_eq!(target[0], CellRange { first_row: 0, last_row: 1, first_col: 2, last_col: 4 });
    let two = [2, 0, 0, 0, 0, 0, 0, 0, 0, 0, 5, 0, 1, 0, 0, 0, 0, 0];
    let mut partial = Vec::new();
    assert!(parse_merges(&two, &mut partial, 10).is_err());
    assert_eq!(partial.len(), 1);
    let mut full = vec![CellRange { first_row: 0, last_row: 0, first_col: 0, last_col: 0 }; 10];
    assert!(parse_merges(&[1, 0, 0, 0, 0, 0, 0, 0, 0, 0], &mut full, 10).is_err());
    assert_eq!(full.len(), 10);
}

#[test]
fn ranges_are_read_and_checked_against_the_grid() {
    assert_eq!(parse_range(&[1, 0, 2, 0, 3, 0, 4, 0]), Some(CellRange {
        first_row: 1,
        last_row: 2,
        first_col: 3,
        last_col: 4
    }));
    assert_eq!(parse_range(&[0; 7]), None);
    assert!(validate_range(CellRange { first_row: 0, last_row: 0, first_col: 0, last_col: 255 }).is_ok());
    assert!(validate_range(CellRange { first_row: 0, last_row: 0, first_col: 0, last_col: 256 }).is_err());
    assert!(validate_range(CellRange { first_row: 1, last_row: 0, first_col: 0, last_col: 0 }).is_err());
}

#[test]
fn default_limits_match_the_documented_budget() {
    let limits = XlsLimits::default();
    assert_eq!(limits.max_stream_bytes, 64 * 1024 * 1024);
    assert_eq!(limits.max_records, 500_000);
    assert_eq!(limits.max_sheets, 256);
}

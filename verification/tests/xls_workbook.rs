use legacy_doc::xls_biff::{
    BOF, BOUNDSHEET, COLINFO, CellRange, DIMENSIONS, EOF, FILEPASS, FONT, MERGEDCELLS, NUMBER, ROW, XF, XlsLimits,
    parse_colinfo, parse_merges, parse_row,
};
use legacy_doc::xls_sheet::{SourceCellValue, XlsWarning, cell_key_of, parse_source_value};
use legacy_doc::xls_workbook::{WorkbookFormatting, parse_stream};

fn record(kind: u16, payload: &[u8]) -> Vec<u8> {
    let mut result = Vec::with_capacity(payload.len() + 4);
    result.extend_from_slice(&kind.to_le_bytes());
    result.extend_from_slice(&u16::try_from(payload.len()).expect("test record payload fits u16").to_le_bytes());
    result.extend_from_slice(payload);
    result
}

fn synthetic_workbook() -> Vec<u8> {
    let bof = record(BOF, &[0x00, 0x06, 0x05, 0x00]);
    let xf = record(XF, &[0; 20]);
    let mut boundsheet_payload = vec![0; 8];
    boundsheet_payload[4] = 1; // Hidden worksheets still keep their index and formatting.
    boundsheet_payload[6] = 1;
    boundsheet_payload.extend_from_slice(b"S");
    let boundsheet = record(BOUNDSHEET, &boundsheet_payload);
    let globals_len = bof.len() + xf.len() + boundsheet.len() + record(EOF, &[]).len();
    boundsheet_payload[0..4].copy_from_slice(&u32::try_from(globals_len).expect("synthetic stream offset fits u32").to_le_bytes());

    let mut dimensions = [0_u8; 14];
    dimensions[4..8].copy_from_slice(&1_u32.to_le_bytes());
    dimensions[10..12].copy_from_slice(&1_u16.to_le_bytes());
    let mut colinfo = [0_u8; 12];
    colinfo[4..6].copy_from_slice(&(20_u16 * 256).to_le_bytes());
    let mut row = [0_u8; 16];
    row[6..8].copy_from_slice(&400_u16.to_le_bytes());
    let mut number = [0_u8; 14];
    number[6..14].copy_from_slice(&12.5_f64.to_le_bytes());
    let merge = [1, 0, 0, 0, 0, 0, 0, 0, 0, 0];

    [
        bof.clone(),
        xf,
        record(BOUNDSHEET, &boundsheet_payload),
        record(EOF, &[]),
        bof,
        record(DIMENSIONS, &dimensions),
        record(COLINFO, &colinfo),
        record(ROW, &row),
        record(NUMBER, &number),
        record(MERGEDCELLS, &merge),
        record(EOF, &[]),
    ]
    .concat()
}

#[test]
fn parses_a_complete_synthetic_biff8_stream_with_bounded_layout() {
    let bytes = synthetic_workbook();
    let parsed = parse_stream(&bytes, XlsLimits::default()).expect("synthetic workbook");
    assert_eq!(parsed.sheets.len(), 1);
    let sheet = &parsed.sheets[0];
    assert_eq!(sheet.name, "S");
    assert_eq!(f64::from(sheet.columns[0].width_units) / 256.0, 20.0);
    assert_eq!(sheet.rows[&0].height_twips, 400);
    assert_eq!(sheet.cell_xfs[&cell_key_of(0, 0)], 0);
    assert_eq!(sheet.source_values[&cell_key_of(0, 0)], SourceCellValue::Number(12.5_f64.to_bits()));
    assert_eq!(sheet.merges.len(), 1);
}

#[test]
fn parses_geometry_cell_styles_and_merges() {
    let col = [1, 0, 3, 0, 0, 8, 2, 0, 1, 0, 0, 0];
    let band = parse_colinfo(&col).expect("colinfo").expect("band");
    assert_eq!((band.first, band.last, f64::from(band.width_units) / 256.0, band.hidden), (1, 3, 8.0, true));

    let mut row = [0_u8; 16];
    row[0..2].copy_from_slice(&7_u16.to_le_bytes());
    row[6..8].copy_from_slice(&(0x0258_u16 | 0x8000).to_le_bytes());
    row[12..16].copy_from_slice(&(0x20_u32 | 0x80 | (2_u32 << 16)).to_le_bytes());
    let (_, layout) = parse_row(&row).expect("row");
    assert_eq!(layout.height_twips, 600);
    assert!(layout.hidden && layout.custom_height);
    assert_eq!(layout.xf, Some(2));

    let mut target = Vec::new();
    parse_merges(&[1, 0, 0, 0, 1, 0, 2, 0, 4, 0], &mut target, 10).expect("merge");
    assert_eq!(target[0], CellRange { first_row: 0, last_row: 1, first_col: 2, last_col: 4 });
}

#[test]
fn keeps_formula_and_boolean_cached_results() {
    let mut formula = vec![0_u8; 14];
    formula[6..14].copy_from_slice(&42.5_f64.to_le_bytes());
    assert_eq!(
        parse_source_value(0x0006, &formula).expect("formula"),
        Some(SourceCellValue::Number(42.5_f64.to_bits()))
    );
    formula[6..14].copy_from_slice(&[1, 0, 1, 0, 0, 0, 0xFF, 0xFF]);
    assert_eq!(parse_source_value(0x0006, &formula).expect("boolean"), Some(SourceCellValue::Boolean(true)));
    formula[6..14].copy_from_slice(&[2, 0, 7, 0, 0, 0, 0xFF, 0xFF]);
    assert_eq!(parse_source_value(0x0006, &formula).expect("error"), Some(SourceCellValue::Error(7)));
    formula[6..14].copy_from_slice(&[0, 0, 0, 0, 0, 0, 0xFF, 0xFF]);
    assert_eq!(parse_source_value(0x0006, &formula).expect("string"), None);
    let mut rk = vec![0_u8; 10];
    rk[6..10].copy_from_slice(&((123_u32 << 2) | 2).to_le_bytes());
    assert_eq!(parse_source_value(0x027E, &rk).unwrap(), Some(SourceCellValue::RkNumber((123 << 2) | 2)));
    assert!(parse_source_value(0x0203, &[0; 13]).is_err());
    assert!(parse_source_value(0x0203, &[0; 7]).is_err());
}

#[test]
fn rejects_non_biff8_encrypted_and_misplaced_sheets() {
    assert!(parse_stream(&[], XlsLimits::default()).is_err());
    let biff5 = [record(BOF, &[0x00, 0x05, 0x05, 0x00]), record(EOF, &[])].concat();
    assert!(parse_stream(&biff5, XlsLimits::default()).is_err());
    let encrypted = [record(BOF, &[0x00, 0x06, 0x05, 0x00]), record(FILEPASS, &[]), record(EOF, &[])].concat();
    assert!(parse_stream(&encrypted, XlsLimits::default()).is_err());
    let mut sheet = vec![0_u8; 8];
    sheet[0..4].copy_from_slice(&999_u32.to_le_bytes());
    sheet[6] = 1;
    sheet.push(b'X');
    let misplaced = [record(BOF, &[0x00, 0x06, 0x05, 0x00]), record(BOUNDSHEET, &sheet), record(EOF, &[])].concat();
    assert!(parse_stream(&misplaced, XlsLimits::default()).is_err());
    let chart = {
        let mut entry = sheet.clone();
        entry[5] = 2;
        [record(BOF, &[0x00, 0x06, 0x05, 0x00]), record(BOUNDSHEET, &entry), record(EOF, &[])].concat()
    };
    assert_eq!(parse_stream(&chart, XlsLimits::default()).unwrap().sheets.len(), 0);
}

#[test]
fn enforces_font_limits_and_warns_on_missing_styles() {
    let mut font = vec![0_u8; 16];
    font[14] = 1;
    font.push(b'A');
    let globals = [record(BOF, &[0x00, 0x06, 0x05, 0x00]), record(FONT, &font), record(FONT, &font), record(EOF, &[])].concat();
    let limits = XlsLimits { max_fonts: 1, ..XlsLimits::default() };
    assert!(parse_stream(&globals, limits).is_err());
    assert_eq!(parse_stream(&globals, XlsLimits::default()).unwrap().fonts.len(), 2);

    let mut bytes = synthetic_workbook();
    // A ROW record whose XF is missing from the (single-XF) workbook.
    let mut row = [0_u8; 16];
    row[0..2].copy_from_slice(&3_u16.to_le_bytes());
    row[12..16].copy_from_slice(&(0x80_u32 | (5_u32 << 16)).to_le_bytes());
    let eof_at = bytes.len() - 4;
    bytes.splice(eof_at..eof_at, record(ROW, &row));
    let parsed = parse_stream(&bytes, XlsLimits::default()).unwrap();
    assert_eq!(parsed.warnings, vec![XlsWarning::InvalidRowStyleReference { sheet: 0, row: 3, xf: 5 }]);
    assert_eq!(parsed.sheets[0].rows[&3].xf, None);
}

#[test]
fn rejects_bytes_that_are_not_an_xls_container() {
    assert!(WorkbookFormatting::from_xls(b"not a workbook", XlsLimits::default()).is_err());
}

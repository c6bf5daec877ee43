use std::collections::{BTreeMap, HashMap};

use legacy_doc::sheet_patch::{worksheet_index, has_external_hyperlinks, new_relationships, patch_relationships, patch_worksheet};
use legacy_doc::xls_biff::{CellRange, ColumnBand, HyperlinkTarget, RowLayout, XlsHyperlink};
use legacy_doc::xls_sheet::{DefaultColumnWidth, SheetFormatting, SourceCellValue, cell_key_of};

fn empty_sheet() -> SheetFormatting {
    SheetFormatting {
        name: String::new(),
        dimensions: None,
        default_col_width: None,
        default_row_height_twips: None,
        columns: Vec::new(),
        rows: BTreeMap::new(),
        cell_xfs: HashMap::new(),
        source_values: HashMap::new(),
        merges: Vec::new(),
        hyperlinks: Vec::new(),
    }
}

fn patch(input: &str, sheet: &SheetFormatting, numbers: &HashMap<u32, String>) -> Result<String, String> {
    patch_worksheet(input.as_bytes(), sheet, numbers).map(|bytes| String::from_utf8(bytes).unwrap())
}

#[test]
fn patches_cells_rows_columns_merges_and_links() {
    let mut sheet = SheetFormatting {
        name: "S".into(),
        dimensions: Some(CellRange { first_row: 0, last_row: 0, first_col: 0, last_col: 1 }),
        default_col_width: Some(DefaultColumnWidth::Characters(8)),
        default_row_height_twips: Some(300),
        ..empty_sheet()
    };
    sheet.columns.push(ColumnBand { first: 0, last: 0, width_units: 20 * 256, hidden: false, xf: 0 });
    sheet.rows.insert(0, RowLayout { height_twips: 600, hidden: false, custom_height: true, xf: None });
    sheet.cell_xfs.insert(cell_key_of(0, 0), 7);
    sheet.cell_xfs.insert(cell_key_of(0, 1), 8);
    sheet.merges.push(CellRange { first_row: 0, last_row: 0, first_col: 0, last_col: 1 });
    sheet.hyperlinks.push(XlsHyperlink {
        range: CellRange { first_row: 0, last_row: 0, first_col: 0, last_col: 0 },
        target: HyperlinkTarget::External("https://example.test".into()),
    });
    let input = r#"<?xml version="1.0"?><worksheet xmlns:r="r"><sheetData><row r="1"><c r="A1" s="1" t="inlineStr"><is><t>x</t></is></c></row></sheetData></worksheet>"#;
    let output = patch(input, &sheet, &HashMap::new()).expect("patch");
    assert!(output.contains("<sheetFormatPr defaultColWidth=\"8.0000\" defaultRowHeight=\"15.00\"/>"));
    assert!(output.contains("<col min=\"1\" max=\"1\" width=\"20.0000\""));
    assert!(output.contains("<row r=\"1\" ht=\"30.00\" customHeight=\"1\">"));
    assert!(output.contains("<c r=\"A1\" s=\"7\""));
    assert!(output.contains("<c r=\"B1\" s=\"8\"/>"));
    assert!(output.contains("<mergeCell ref=\"A1:B1\"/>"));
    assert!(output.contains("r:id=\"rIdZrimoXlsH1\""));
}

#[test]
fn patches_styles_and_geometry_on_the_last_biff8_row() {
    let mut sheet = SheetFormatting {
        dimensions: Some(CellRange { first_row: 65_535, last_row: 65_535, first_col: 255, last_col: 255 }),
        ..empty_sheet()
    };
    sheet.cell_xfs.insert(cell_key_of(65_535, 255), 0);
    sheet.rows.insert(65_535, RowLayout { height_twips: 400, hidden: false, custom_height: true, xf: None });
    let input = r#"<worksheet><sheetData><row r="65536"><c r="IV65536"/></row></sheetData></worksheet>"#;
    let output = patch(input, &sheet, &HashMap::new()).expect("patch");
    assert!(output.contains("<row r=\"65536\" ht=\"20.00\" customHeight=\"1\">"));
    assert!(output.contains("<c r=\"IV65536\" s=\"0\"/>"));
}

#[test]
fn writes_the_whole_frame_around_the_sheet_data() {
    let mut sheet = SheetFormatting {
        default_col_width: Some(DefaultColumnWidth::Units(2688)),
        ..empty_sheet()
    };
    sheet.columns.push(ColumnBand { first: 1, last: 3, width_units: 8, hidden: true, xf: 4096 });
    sheet.columns.push(ColumnBand { first: 4, last: 4, width_units: 24, hidden: false, xf: 15 });
    sheet.hyperlinks.push(XlsHyperlink {
        range: CellRange { first_row: 1, last_row: 2, first_col: 0, last_col: 1 },
        target: HyperlinkTarget::Internal("'A&B'!C3".into()),
    });
    sheet.hyperlinks.push(XlsHyperlink {
        range: CellRange { first_row: 0, last_row: 0, first_col: 2, last_col: 2 },
        target: HyperlinkTarget::External("mailto:x@example.test".into()),
    });
    let output = patch("<worksheet><sheetData/><x/></sheetData></worksheet>", &sheet, &HashMap::new()).unwrap();
    assert_eq!(
        output,
        "<worksheet><sheetFormatPr defaultColWidth=\"10.5000\"/><cols>\
<col min=\"2\" max=\"4\" width=\"0.0312\" customWidth=\"1\" hidden=\"1\"/>\
<col min=\"5\" max=\"5\" width=\"0.0938\" customWidth=\"1\" style=\"15\"/></cols>\
<sheetData/><x/></sheetData><hyperlinks>\
<hyperlink ref=\"A2:B3\" location=\"&apos;A&amp;B&apos;!C3\"/>\
<hyperlink ref=\"C1\" r:id=\"rIdZrimoXlsH1\"/></hyperlinks></worksheet>"
    );
}

#[test]
fn carries_source_values_into_their_cells() {
    let mut sheet = empty_sheet();
    sheet.source_values.insert(cell_key_of(0, 0), SourceCellValue::Number(0));
    sheet.source_values.insert(cell_key_of(0, 1), SourceCellValue::Boolean(true));
    sheet.source_values.insert(cell_key_of(0, 2), SourceCellValue::Error(0x07));
    sheet.source_values.insert(cell_key_of(0, 3), SourceCellValue::RkNumber(0));
    sheet.source_values.insert(cell_key_of(0, 4), SourceCellValue::Error(0x55));
    let mut numbers = HashMap::new();
    numbers.insert(cell_key_of(0, 0), "12.5".to_string());
    let input = "<worksheet><sheetData><row r=\"1\">\
<c r=\"A1\" t=\"s\"><v>0</v></c><c r=\"B1\"><v>1</v></c><c r=\"C1\"><v>2</v></c>\
<c r=\"D1\"><v>3</v></c><c r=\"E1\"><v>4</v></c><c r=\"F1\"><v>5</v></c></row></sheetData></worksheet>";
    let output = patch(input, &sheet, &numbers).unwrap();
    assert_eq!(
        output,
        "<worksheet><sheetData><row r=\"1\">\
<c r=\"A1\"><v>12.5</v></c><c r=\"B1\" t=\"b\"><v>1</v></c><c r=\"C1\" t=\"e\"><v>#DIV/0!</v></c>\
<c r=\"D1\"><v>3</v></c><c r=\"E1\" t=\"e\"><v>#VALUE!</v></c><c r=\"F1\"><v>5</v></c></row></sheetData></worksheet>"
    );
}

#[test]
fn fills_missing_rows_and_cells_in_row_and_column_order() {
    let mut sheet = SheetFormatting {
        dimensions: Some(CellRange { first_row: 0, last_row: 2, first_col: 0, last_col: 2 }),
        ..empty_sheet()
    };
    sheet.rows.insert(1, RowLayout { height_twips: 0, hidden: true, custom_height: false, xf: Some(3) });
    sheet.rows.insert(9, RowLayout { height_twips: 0, hidden: true, custom_height: false, xf: None });
    sheet.cell_xfs.insert(cell_key_of(2, 2), 5);
    sheet.cell_xfs.insert(cell_key_of(0, 0), 4);
    sheet.cell_xfs.insert(cell_key_of(7, 7), 9);
    let input = "<worksheet><sheetData> <row r=\"3\"><c r=\"C3\"/></row> <row r=\"1\"><c r=\"B1\"/></row></sheetData></worksheet>";
    let output = patch(input, &sheet, &HashMap::new()).unwrap();
    assert_eq!(
        output,
        "<worksheet><sheetData><row r=\"1\"><c r=\"A1\" s=\"4\"/><c r=\"B1\"/></row>\
<row r=\"2\" hidden=\"1\" s=\"3\" customFormat=\"1\"></row>\
<row r=\"3\"><c r=\"C3\" s=\"5\"/></row></sheetData></worksheet>"
    );
}

#[test]
fn rejects_worksheets_it_cannot_patch() {
    let sheet = SheetFormatting {
        dimensions: Some(CellRange { first_row: 0, last_row: 0, first_col: 0, last_col: 0 }),
        ..empty_sheet()
    };
    let numbers = HashMap::new();
    assert!(patch_worksheet(&[0xFF, 0xFE], &sheet, &numbers).is_err());
    assert!(patch("<worksheet></worksheet>", &sheet, &numbers).is_err());
    assert!(patch("<worksheet><sheetData><row r=\"0\"></row></sheetData></worksheet>", &sheet, &numbers).is_err());
    assert!(
        patch("<worksheet><sheetData><row r=\"1\"></row><row r=\"+1\"></row></sheetData></worksheet>", &sheet, &numbers)
            .is_err()
    );
    assert!(patch("<worksheet><sheetData><row r=\"1\"></sheetData></worksheet>", &sheet, &numbers).is_err());
    assert!(patch("<worksheet><sheetData></sheetData><c r=\"A1\"", &empty_sheet(), &numbers).is_err());
    assert_eq!(
        patch("<worksheet><sheetData><row r=\"1\"></row></sheetData></worksheet>", &empty_sheet(), &numbers).unwrap(),
        "<worksheet><sheetData><row r=\"1\"></row></sheetData></worksheet>"
    );
}

fn linked_sheet() -> SheetFormatting {
    let mut sheet = empty_sheet();
    sheet.hyperlinks.push(XlsHyperlink {
        range: CellRange { first_row: 0, last_row: 0, first_col: 0, last_col: 0 },
        target: HyperlinkTarget::Internal("Sheet2!A1".into()),
    });
    sheet.hyperlinks.push(XlsHyperlink {
        range: CellRange { first_row: 1, last_row: 1, first_col: 0, last_col: 0 },
        target: HyperlinkTarget::External("https://example.test/?a=1&b=2".into()),
    });
    sheet
}

#[test]
fn writes_relationships_for_external_links_only() {
    let sheet = linked_sheet();
    assert!(has_external_hyperlinks(&sheet));
    let element = "<Relationship Id=\"rIdZrimoXlsH1\" Type=\"http://schemas.openxmlformats.org/officeDocument/2006/relationships/hyperlink\" Target=\"https://example.test/?a=1&amp;b=2\" TargetMode=\"External\"/>";
    let fresh = new_relationships(&sheet);
    assert!(fresh.starts_with("<?xml version=\"1.0\" encoding=\"UTF-8\" standalone=\"yes\"?><Relationships"));
    assert!(fresh.ends_with(&format!("{element}</Relationships>")));
    let patched = patch_relationships(b"<Relationships><x/></Relationships>", &sheet).unwrap();
    assert_eq!(String::from_utf8(patched).unwrap(), format!("<Relationships><x/>{element}</Relationships>"));
    assert!(patch_relationships(b"<Relationships>", &sheet).is_err());
    assert!(patch_relationships(&[0xFF], &sheet).is_err());
}

#[test]
fn leaves_relationships_alone_without_external_links() {
    let mut sheet = linked_sheet();
    sheet.hyperlinks.pop();
    assert!(!has_external_hyperlinks(&sheet));
    assert_eq!(patch_relationships(&[0xFF, 1], &sheet).unwrap(), vec![0xFF, 1]);
}

#[test]
fn reads_sheet_indexes_from_part_names() {
    assert_eq!(worksheet_index("xl/worksheets/sheet1.xml", ".xml"), Some(0));
    assert_eq!(worksheet_index("xl/worksheets/sheet12.xml", ".xml"), Some(11));
    assert_eq!(worksheet_index("xl/worksheets/_rels/sheet3.xml.rels", ".xml.rels"), Some(2));
    assert_eq!(worksheet_index("xl/worksheets/sheet+2.xml", ".xml"), Some(1));
    assert_eq!(worksheet_index("xl/worksheets/sheet0.xml", ".xml"), None);
    assert_eq!(worksheet_index("xl/worksheets/sheet.xml", ".xml"), None);
    assert_eq!(worksheet_index("xl/worksheets/sheetA.xml", ".xml"), None);
    assert_eq!(worksheet_index("xl/worksheets/sheet1.xml.rels", ".xml"), None);
    assert_eq!(worksheet_index("xl/worksheets/_rels/sheet1.xml.rels", ".xml"), None);
    assert_eq!(worksheet_index("xl/styles.xml", ".xml"), None);
}

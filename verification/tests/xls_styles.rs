use std::collections::{BTreeMap, HashMap};
use std::io::{Cursor, Read, Write};

use legacy_doc::xls_biff::{XlsBorder, XlsFill, XlsFont, XlsXf};
use legacy_doc::xls_styles::{append_points, color_hex, styles_xml};
use legacy_doc::package::{PackagePart, add_xls_fidelity_package, add_xls_fidelity_to_parts};
use legacy_doc::xls_sheet::SheetFormatting;
use legacy_doc::xls_workbook::WorkbookFormatting;
use zip::write::SimpleFileOptions;
use zip::{CompressionMethod, ZipArchive, ZipWriter};

fn sample_workbook() -> WorkbookFormatting {
    let border = XlsBorder {
        left_style: 1,
        right_style: 1,
        top_style: 1,
        bottom_style: 1,
        left_color: 8,
        right_color: 8,
        top_color: 8,
        bottom_color: 8,
    };
    let fill = XlsFill { pattern: 1, foreground: 10, background: 9 };
    let mut custom_formats = BTreeMap::new();
    custom_formats.insert(164, "0.00%".to_string());
    WorkbookFormatting {
        fonts: vec![XlsFont {
            name: "Arial".into(),
            height_twips: 240,
            color_index: 8,
            weight: 700,
            italic: false,
            strike: false,
            underline: 0,
            family: 2,
            charset: 204,
        }],
        xfs: vec![XlsXf {
            font_index: 0,
            format_index: 164,
            parent_style: 0,
            is_style: false,
            used_attributes: 0x7C,
            horizontal: 2,
            vertical: 1,
            wrap: true,
            rotation: 0,
            indent: 0,
            shrink_to_fit: false,
            reading_order: 0,
            border,
            fill,
        }],
        custom_formats,
        palette: Vec::new(),
        sheets: Vec::new(),
        warnings: Vec::new(),
    }
}

#[test]
fn serializes_source_styles_without_the_generated_header_heuristic() {
    let xml = styles_xml(&sample_workbook());
    assert!(xml.contains("<numFmt numFmtId=\"164\" formatCode=\"0.00%\"/>"));
    assert!(xml.contains("<b/><sz val=\"12.00\"/>"));
    assert!(xml.contains("patternType=\"solid\""));
    assert!(xml.contains("horizontal=\"center\" vertical=\"center\" wrapText=\"1\""));
}

#[test]
fn writes_the_whole_styles_part_for_a_sample_workbook() {
    let xml = styles_xml(&sample_workbook());
    let expected = "<?xml version=\"1.0\" encoding=\"UTF-8\" standalone=\"yes\"?><styleSheet xmlns=\"http://schemas.openxmlformats.org/spreadsheetml/2006/main\"><numFmts count=\"1\"><numFmt numFmtId=\"164\" formatCode=\"0.00%\"/></numFmts><fonts count=\"1\"><font><b/><sz val=\"12.00\"/><color rgb=\"FF000000\"/><name val=\"Arial\"/><family val=\"2\"/><charset val=\"204\"/></font></fonts><fills count=\"3\"><fill><patternFill patternType=\"none\"></patternFill></fill><fill><patternFill patternType=\"gray125\"><fgColor rgb=\"FF000000\"/><bgColor rgb=\"FF000000\"/></patternFill></fill><fill><patternFill patternType=\"solid\"><fgColor rgb=\"FFFF0000\"/><bgColor rgb=\"FFFFFFFF\"/></patternFill></fill></fills><borders count=\"2\"><border><left/><right/><top/><bottom/><diagonal/></border><border><left style=\"thin\"><color rgb=\"FF000000\"/></left><right style=\"thin\"><color rgb=\"FF000000\"/></right><top style=\"thin\"><color rgb=\"FF000000\"/></top><bottom style=\"thin\"><color rgb=\"FF000000\"/></bottom><diagonal/></border></borders><cellStyleXfs count=\"1\"><xf numFmtId=\"0\" fontId=\"0\" fillId=\"0\" borderId=\"0\"/></cellStyleXfs><cellXfs count=\"1\"><xf numFmtId=\"164\" fontId=\"0\" fillId=\"2\" borderId=\"1\" xfId=\"0\" applyNumberFormat=\"1\" applyFont=\"1\" applyFill=\"1\" applyBorder=\"1\" applyAlignment=\"1\"><alignment horizontal=\"center\" vertical=\"center\" wrapText=\"1\"/></xf></cellXfs><cellStyles count=\"1\"><cellStyle name=\"Normal\" xfId=\"0\" builtinId=\"0\"/></cellStyles></styleSheet>";
    let first_difference = xml.bytes().zip(expected.bytes()).position(|(a, b)| a != b);
    if let Some(at) = first_difference {
        let from = at.saturating_sub(30);
        panic!("styles differ at byte {at}: got {:?}, expected {:?}", &xml[from..at + 30], &expected[from..at + 30]);
    }
    assert_eq!(xml.len(), expected.len());
}

#[test]
fn cell_xfs_inherit_unapplied_groups_from_their_parent_style() {
    let mut workbook = sample_workbook();
    let mut child = workbook.xfs[0];
    child.is_style = false;
    child.parent_style = 0;
    child.used_attributes = 0;
    child.format_index = 9;
    child.horizontal = 0;
    child.vertical = 2;
    child.wrap = false;
    workbook.xfs[0].is_style = true;
    workbook.xfs.push(child);
    let xml = styles_xml(&workbook);
    // The child applies nothing itself, so it takes the parent's format and alignment.
    assert_eq!(xml.matches("numFmtId=\"164\" fontId=\"0\" fillId=\"2\" borderId=\"1\"").count(), 2);
    assert_eq!(xml.matches("<alignment horizontal=\"center\"").count(), 2);
}

#[test]
fn font_points_match_two_decimal_float_formatting() {
    for twips in [0_u16, 1, 3, 19, 20, 230, 241, 9999, 65535] {
        let mut text = String::new();
        append_points(&mut text, twips);
        assert_eq!(text, format!("{:.2}", f64::from(twips) / 20.0));
    }
}

#[test]
fn colors_come_from_the_palette_or_the_defaults() {
    assert_eq!(color_hex(&[], 8).unwrap(), "000000");
    assert_eq!(color_hex(&[], 10).unwrap(), "FF0000");
    assert_eq!(color_hex(&[], 63).unwrap(), "333333");
    assert_eq!(color_hex(&[[0x12, 0xAB, 0xEF]], 8).unwrap(), "12ABEF");
    assert_eq!(color_hex(&[], 65).unwrap(), "FFFFFF");
    assert_eq!(color_hex(&[], 66), None);
    assert_eq!(color_hex(&[], 0x7FFF), None);
}

fn one_sheet_workbook() -> WorkbookFormatting {
    let mut workbook = sample_workbook();
    workbook.sheets = vec![SheetFormatting {
        name: "S".into(),
        dimensions: None,
        default_col_width: None,
        default_row_height_twips: None,
        columns: Vec::new(),
        rows: BTreeMap::new(),
        cell_xfs: HashMap::new(),
        source_values: HashMap::new(),
        merges: Vec::new(),
        hyperlinks: Vec::new(),
    }];
    workbook
}

fn part(name: &str, data: &str) -> PackagePart {
    PackagePart { name: name.into(), compression: CompressionMethod::Stored, data: data.as_bytes().to_vec() }
}

#[test]
fn leaves_a_package_alone_without_source_sheets() {
    let bytes = b"any bytes".to_vec();
    assert_eq!(add_xls_fidelity_package(bytes.clone(), &sample_workbook(), &Vec::new()).unwrap(), bytes);
}

#[test]
fn replaces_the_styles_part_and_requires_every_worksheet() {
    let workbook = one_sheet_workbook();
    let numbers = vec![HashMap::new()];
    let missing = add_xls_fidelity_to_parts(vec![part("xl/styles.xml", "<old/>")], &workbook, &numbers);
    assert_eq!(missing.err().unwrap(), "generated XLSX is missing styles.xml or a worksheet part");

    let parts = vec![
        part("xl/styles.xml", "<old/>"),
        part("xl/worksheets/sheet1.xml", "<worksheet><sheetData></sheetData></worksheet>"),
        part("docProps/app.xml", "<app/>"),
    ];
    let rewritten = add_xls_fidelity_to_parts(parts, &workbook, &numbers).unwrap();
    assert_eq!(rewritten.len(), 3);
    assert_eq!(rewritten[0].data, styles_xml(&workbook).into_bytes());
    assert_eq!(rewritten[2].data, b"<app/>");

    let mut output = Cursor::new(Vec::new());
    {
        let mut writer = ZipWriter::new(&mut output);
        for (name, data) in [("xl/styles.xml", "<old/>"), ("xl/worksheets/sheet1.xml", "<worksheet><sheetData></sheetData></worksheet>")] {
            writer.start_file(name, SimpleFileOptions::default()).unwrap();
            writer.write_all(data.as_bytes()).unwrap();
        }
        writer.finish().unwrap();
    }
    let patched = add_xls_fidelity_package(output.into_inner(), &workbook, &numbers).unwrap();
    let mut archive = ZipArchive::new(Cursor::new(patched)).unwrap();
    let mut styles = String::new();
    archive.by_name("xl/styles.xml").unwrap().read_to_string(&mut styles).unwrap();
    assert_eq!(styles, styles_xml(&workbook));
}

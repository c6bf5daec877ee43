use std::io::{Cursor, Read, Write};

use legacy_doc::package::{PackagePart, add_table_layout_package, add_table_layout_to_parts, read_package, write_package};
use zip::write::SimpleFileOptions;
use zip::{CompressionMethod, ZipArchive, ZipWriter};

const DOCUMENT: &str = "<w:document><w:body><w:tbl><w:tblPr><w:tblW/></w:tblPr></w:tbl></w:body></w:document>";

fn package(entries: &[(&str, &str)]) -> Vec<u8> {
    let mut output = Cursor::new(Vec::new());
    {
        let mut writer = ZipWriter::new(&mut output);
        for (name, data) in entries {
            writer
                .start_file(*name, SimpleFileOptions::default().compression_method(CompressionMethod::Stored))
                .unwrap();
            writer.write_all(data.as_bytes()).unwrap();
        }
        writer.finish().unwrap();
    }
    output.into_inner()
}

fn entry(bytes: &[u8], name: &str) -> String {
    let mut archive = ZipArchive::new(Cursor::new(bytes.to_vec())).unwrap();
    let mut file = archive.by_name(name).unwrap();
    let mut text = String::new();
    file.read_to_string(&mut text).unwrap();
    text
}

#[test]
fn reads_and_writes_package_parts_in_order() {
    let bytes = package(&[("[Content_Types].xml", "<Types/>"), ("word/document.xml", DOCUMENT)]);
    let parts = read_package(bytes).unwrap();
    assert_eq!(parts.iter().map(|p| p.name.as_str()).collect::<Vec<_>>(), ["[Content_Types].xml", "word/document.xml"]);
    assert_eq!(parts[1].data, DOCUMENT.as_bytes());
    let written = write_package(parts).unwrap();
    assert_eq!(entry(&written, "[Content_Types].xml"), "<Types/>");
    assert_eq!(entry(&written, "word/document.xml"), DOCUMENT);
    assert!(read_package(b"not a zip".to_vec()).is_err());
}

#[test]
fn patches_only_the_main_document_part() {
    let parts = vec![
        PackagePart { name: "a.xml".into(), compression: CompressionMethod::Stored, data: b"<a/>".to_vec() },
        PackagePart { name: "word/document.xml".into(), compression: CompressionMethod::Stored, data: DOCUMENT.as_bytes().to_vec() },
    ];
    let patched = add_table_layout_to_parts(parts, &[true], &[]).unwrap();
    assert_eq!(patched[0].data, b"<a/>");
    assert!(String::from_utf8(patched[1].data.clone()).unwrap().contains("<w:tblLayout w:type=\"fixed\"/></w:tblPr>"));

    let missing = vec![PackagePart { name: "a.xml".into(), compression: CompressionMethod::Stored, data: Vec::new() }];
    assert_eq!(
        add_table_layout_to_parts(missing, &[true], &[]).err().unwrap(),
        "generated DOCX is missing word/document.xml"
    );
}

#[test]
fn adds_table_layout_to_an_in_memory_docx() {
    let bytes = package(&[("word/document.xml", DOCUMENT)]);
    let patched = add_table_layout_package(bytes, &[true], &[]).unwrap();
    assert!(entry(&patched, "word/document.xml").contains("<w:tblLayout w:type=\"fixed\"/>"));
}

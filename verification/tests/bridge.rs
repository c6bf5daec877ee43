use legacy_doc::DocumentFormat;
use legacy_doc::bridge::{extract_legacy_plain_text, legacy_formats};

#[test]
fn maps_all_legacy_formats() {
    assert!(legacy_formats("DOC").is_ok());
    assert!(legacy_formats("xls").is_ok());
    assert!(legacy_formats("ppt").is_ok());
    assert!(legacy_formats("docx").is_err());
}

#[test]
fn pairs_each_legacy_format_with_its_ooxml_target() {
    assert_eq!(legacy_formats("Doc").unwrap(), (DocumentFormat::Doc, DocumentFormat::Docx));
    assert_eq!(legacy_formats("XLS").unwrap(), (DocumentFormat::Xls, DocumentFormat::Xlsx));
    assert_eq!(legacy_formats("ppt").unwrap(), (DocumentFormat::Ppt, DocumentFormat::Pptx));
    assert!(legacy_formats(".doc").is_err());
    assert!(legacy_formats("").is_err());
}

#[test]
fn refuses_unknown_formats_and_unreadable_bytes() {
    assert!(extract_legacy_plain_text(b"not a document", "pdf").is_err());
    assert!(extract_legacy_plain_text(b"not a document", "doc").is_err());
    assert!(extract_legacy_plain_text(&[], "xls").is_err());
}

#[test]
fn names_the_refused_format() {
    assert_eq!(legacy_formats("pdf").unwrap_err(), "unsupported legacy Office format: pdf");
    assert_eq!(
        extract_legacy_plain_text(b"", "Docx").unwrap_err(),
        "unsupported legacy Office format: Docx"
    );
}

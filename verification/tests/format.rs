use legacy_doc::DocumentFormat;

#[test]
fn parses_aliases_case_insensitively() {
    assert_eq!(DocumentFormat::from_extension(".JPG"), Some(DocumentFormat::Jpeg));
    assert_eq!(DocumentFormat::from_extension("tif"), Some(DocumentFormat::Tiff));
    assert_eq!(DocumentFormat::from_extension("unknown"), None);
}

#[test]
fn classifies_legacy_office_formats() {
    assert_eq!(DocumentFormat::from_extension("..DOC"), Some(DocumentFormat::Doc));
    assert!(DocumentFormat::Doc.is_legacy_office());
    assert!(DocumentFormat::Xls.is_legacy_office());
    assert!(!DocumentFormat::Pdf.is_legacy_office());
}

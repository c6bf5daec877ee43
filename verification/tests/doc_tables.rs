use legacy_doc::doc_tables::{RowHeightPatch, RowHeightRule, patch_document_xml};

const FIXED_LAYOUT: &str = "<w:tblLayout w:type=\"fixed\"/>";

#[test]
fn adds_fixed_layout_only_to_source_fixed_tables() {
    let document = "<w:document><w:body><w:tbl><w:tblPr><w:tblW/></w:tblPr></w:tbl><w:tbl><w:tblPr><w:tblW/></w:tblPr></w:tbl></w:body></w:document>";
    let patched = String::from_utf8(patch_document_xml(document.as_bytes(), &[true, false], &[]).unwrap()).unwrap();
    assert_eq!(patched.matches(FIXED_LAYOUT).count(), 1);
    assert!(patched.contains(&format!("<w:tblW/>{FIXED_LAYOUT}</w:tblPr>")));
}

#[test]
fn rejects_table_count_mismatches_and_existing_layout() {
    let one = b"<w:document><w:tbl><w:tblPr></w:tblPr></w:tbl></w:document>";
    assert!(patch_document_xml(one, &[true, false], &[]).is_err());
    assert!(patch_document_xml(one, &[], &[]).is_err());
    let existing = b"<w:document><w:tbl><w:tblPr><w:tblLayout w:type=\"fixed\"/></w:tblPr></w:tbl></w:document>";
    assert!(patch_document_xml(existing, &[true], &[]).is_err());
}

#[test]
fn adds_source_row_height_rules() {
    let document = "<w:document><w:body><w:tbl><w:tblPr></w:tblPr><w:tr><w:trPr><w:trHeight w:val=\"303\"/></w:trPr></w:tr><w:tr><w:trPr><w:trHeight w:val=\"504\"/></w:trPr></w:tr></w:tbl></w:body></w:document>";
    let patched = String::from_utf8(
        patch_document_xml(
            document.as_bytes(),
            &[true],
            &[
                RowHeightPatch { cp_start: 1, height_twips: 303, rule: RowHeightRule::AtLeast },
                RowHeightPatch { cp_start: 2, height_twips: 504, rule: RowHeightRule::Exact },
            ],
        )
        .unwrap(),
    )
    .unwrap();
    assert!(patched.contains("w:val=\"303\" w:hRule=\"atLeast\""));
    assert!(patched.contains("w:val=\"504\" w:hRule=\"exact\""));
}

#[test]
fn keeps_documents_without_tables_and_rejects_invalid_row_heights() {
    let plain = "<w:document><w:body><w:p/></w:body></w:document>";
    assert_eq!(patch_document_xml(plain.as_bytes(), &[], &[]).unwrap(), plain.as_bytes());
    assert!(patch_document_xml(&[0xFF, 0xFE], &[], &[]).is_err());

    let row = "<w:tbl><w:tblPr></w:tblPr><w:trHeight w:val=\"303\"/></w:tbl>";
    let patch = RowHeightPatch { cp_start: 0, height_twips: 304, rule: RowHeightRule::Exact };
    assert!(patch_document_xml(row.as_bytes(), &[false], &[patch]).is_err());
    assert!(patch_document_xml(row.as_bytes(), &[false], &[]).is_err());
    let ruled = "<w:tbl><w:tblPr></w:tblPr><w:trHeight w:val=\"303\" w:hRule=\"exact\"/></w:tbl>";
    let patch = RowHeightPatch { cp_start: 0, height_twips: 303, rule: RowHeightRule::Exact };
    assert!(patch_document_xml(ruled.as_bytes(), &[false], &[patch]).is_err());
    let unclosed = "<w:tbl><w:tblPr><w:tblW/></w:tbl>";
    assert!(patch_document_xml(unclosed.as_bytes(), &[true], &[]).is_err());
}

#[test]
fn keeps_non_ascii_text_around_patched_tables() {
    let document = "<w:t>Прив</w:t><w:tblPr></w:tblPr><w:t>界</w:t>";
    let patched = String::from_utf8(patch_document_xml(document.as_bytes(), &[true], &[]).unwrap()).unwrap();
    assert_eq!(patched, format!("<w:t>Прив</w:t><w:tblPr>{FIXED_LAYOUT}</w:tblPr><w:t>界</w:t>"));
}

use legacy_doc::doc_comments::{ProjectedComment, comments_xml, patch_document_xml};

#[test]
fn serializes_comment_text_controls_and_escapes_metadata() {
    let comments = [ProjectedComment {
        id: 7,
        author: "A&B".into(),
        initials: "<AB>".into(),
        marker: "marker".into(),
        range_markers: None,
        body: "first\tline\u{000B}next\rsecond".encode_utf16().collect(),
    }];
    let xml = comments_xml(&comments);
    assert!(xml.contains("w:author=\"A&amp;B\""));
    assert!(xml.contains("w:initials=\"&lt;AB&gt;\""));
    assert!(xml.contains(
        "first</w:t><w:tab/><w:t xml:space=\"preserve\">line</w:t><w:br/><w:t xml:space=\"preserve\">next"
    ));
    assert!(xml.contains("</w:p><w:p>"));
}

#[test]
fn replaces_ranged_comment_markers_with_ooxml_elements() {
    let start = "\u{F0000}ZRIMO_COMMENT_RANGE_START_00000007\u{F0001}";
    let end = "\u{F0000}ZRIMO_COMMENT_RANGE_END_00000007\u{F0001}";
    let reference = "\u{F0000}ZRIMO_COMMENT_00000007\u{F0001}";
    let document = format!(
        "<w:document><w:body><w:p><w:r><w:t>{start}text{end}{reference}</w:t></w:r></w:p></w:body></w:document>"
    );
    let projected = [ProjectedComment {
        id: 7,
        author: String::new(),
        initials: String::new(),
        marker: reference.into(),
        range_markers: Some((start.into(), end.into())),
        body: Vec::new(),
    }];
    let patched = String::from_utf8(patch_document_xml(document.as_bytes(), &projected).unwrap()).unwrap();
    assert!(patched.contains("<w:commentRangeStart w:id=\"7\"/>"));
    assert!(patched.contains("<w:commentRangeEnd w:id=\"7\"/>"));
    assert!(patched.contains("<w:commentReference w:id=\"7\"/>"));
    assert!(!patched.contains("ZRIMO_COMMENT"));
}

fn comment(marker: &str) -> ProjectedComment {
    ProjectedComment {
        id: 12,
        author: String::new(),
        initials: String::new(),
        marker: marker.into(),
        range_markers: None,
        body: Vec::new(),
    }
}

#[test]
fn writes_the_exact_comment_part() {
    let xml = comments_xml(&[ProjectedComment {
        id: 3,
        author: "Ann".into(),
        initials: "A'".into(),
        marker: String::new(),
        range_markers: None,
        body: vec![0x0001, u16::from(b'x'), 0x000D],
    }]);
    assert_eq!(
        xml,
        "<?xml version=\"1.0\" encoding=\"UTF-8\" standalone=\"yes\"?>\n<w:comments xmlns:w=\"http://schemas.openxmlformats.org/wordprocessingml/2006/main\"><w:comment w:id=\"3\" w:author=\"Ann\" w:initials=\"A&apos;\"><w:p><w:r><w:t xml:space=\"preserve\">x</w:t></w:r></w:p><w:p><w:r></w:r></w:p></w:comment></w:comments>"
    );
}

#[test]
fn reference_markers_must_occur_once_inside_one_text_run() {
    let marker = "@M@";
    let ok = "<w:r><w:t>a@M@b</w:t></w:r>";
    let patched = String::from_utf8(patch_document_xml(ok.as_bytes(), &[comment(marker)]).unwrap()).unwrap();
    assert_eq!(
        patched,
        "<w:r><w:t>a</w:t><w:commentReference w:id=\"12\"/><w:t xml:space=\"preserve\">b</w:t></w:r>"
    );
    let twice = "<w:t>@M@@M@</w:t>";
    assert!(patch_document_xml(twice.as_bytes(), &[comment(marker)]).is_err());
    let missing = "<w:t>text</w:t>";
    assert!(patch_document_xml(missing.as_bytes(), &[comment(marker)]).is_err());
    let outside = "@M@<w:t>text</w:t>";
    assert!(patch_document_xml(outside.as_bytes(), &[comment(marker)]).is_err());
    let split = "<w:t>a</w:t>@M@<w:t>b</w:t>";
    assert!(patch_document_xml(split.as_bytes(), &[comment(marker)]).is_err());
    let unclosed = "<w:t>a@M@";
    assert!(patch_document_xml(unclosed.as_bytes(), &[comment(marker)]).is_err());
    let leftover = "<w:t>ZRIMO_COMMENT</w:t>";
    assert!(patch_document_xml(leftover.as_bytes(), &[]).is_err());
    assert!(patch_document_xml(&[0xC0], &[]).is_err());
}

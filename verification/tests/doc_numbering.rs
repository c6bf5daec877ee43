use legacy_doc::doc_numbering::{
    explicit_toggle, number_format, numbering_xml, parse_markers, patch_document_xml, patch_marker, write_level,
};
use legacy_doc::ListCollection;
use legacy_doc::{FontTable, ListFollow, ListLevel, ToggleValue, decode_grpprl};

#[test]
fn parses_projection_markers_and_maps_common_number_formats() {
    let marker = "<w:p><w:r><w:t>\u{F0000}DOCS_VIEWER_WASM_LIST_0000000A_00000002_03\u{F0001}item</w:t></w:r></w:p>";
    let parsed = parse_markers(marker).unwrap();
    assert_eq!(parsed.len(), 1);
    assert_eq!(parsed[0].num_id, 2);
    assert_eq!(parsed[0].level, 3);
    assert_eq!(number_format(0).unwrap(), "decimal");
    assert_eq!(number_format(23).unwrap(), "bullet");
    assert!(number_format(8).is_err());
}

#[test]
fn markers_keep_their_text_and_character_positions() {
    let first = "\u{F0000}DOCS_VIEWER_WASM_LIST_1_1_0\u{F0001}";
    let second = "\u{F0000}DOCS_VIEWER_WASM_LIST_+ff_A_8\u{F0001}";
    let xml = format!("<w:t>é{first}x{second}</w:t>");
    let parsed = parse_markers(&xml).unwrap();
    assert_eq!(parsed.len(), 2);
    assert_eq!((parsed[0].start, parsed[0].end), (6, 6 + first.chars().count()));
    assert_eq!(parsed[0].raw, first);
    assert_eq!((parsed[1].num_id, parsed[1].level), (10, 8));
    assert_eq!(parsed[1].raw, second);
    assert!(parse_markers("<w:t>no markers</w:t>").unwrap().is_empty());
}

#[test]
fn rejects_malformed_markers() {
    for body in ["1_0_0", "1_1_9", "1_1", "1_1_1_1", "1_x_1", "1__1", "1_1_100000000", "_1_1", "1_-1_1"] {
        let xml = format!("<w:t>\u{F0000}DOCS_VIEWER_WASM_LIST_{body}\u{F0001}</w:t>");
        assert!(parse_markers(&xml).is_err(), "{body}");
    }
    assert!(parse_markers("\u{F0000}DOCS_VIEWER_WASM_LIST_1_1_1").is_err());
}

#[test]
fn only_explicit_toggles_are_kept() {
    assert_eq!(explicit_toggle(Some(ToggleValue::On)), Some(true));
    assert_eq!(explicit_toggle(Some(ToggleValue::Off)), Some(false));
    assert_eq!(explicit_toggle(Some(ToggleValue::SameAsStyle)), None);
    assert_eq!(explicit_toggle(Some(ToggleValue::OppositeStyle)), None);
    assert_eq!(explicit_toggle(None), None);
    assert_eq!(number_format(0xFF).unwrap(), "none");
    assert_eq!(number_format(59).unwrap(), "russianUpper");
    assert!(number_format(60).is_err());
}

#[test]
fn serializes_word_restart_boundary_and_normalizes_bullet_start() {
    let mut level = ListLevel {
        start_at: 4,
        number_format: 0,
        justification: 0,
        legal_numbering: false,
        no_restart: true,
        restart_limit: 1,
        follow: ListFollow::Space,
        placeholder_offsets: [1, 0, 0, 0, 0, 0, 0, 0, 0],
        level_text: vec![0, u16::from(b'.')],
        paragraph_sprms: Vec::new(),
        character_sprms: Vec::new(),
    };
    let mut xml = String::new();
    write_level(&mut xml, 2, &level, &FontTable::default()).unwrap();
    assert!(xml.contains("<w:start w:val=\"4\"/>"));
    assert!(xml.contains("<w:lvlRestart w:val=\"1\"/>"));

    level.number_format = 23;
    level.level_text = vec![0xF0B7];
    let mut bullet = String::new();
    write_level(&mut bullet, 2, &level, &FontTable::default()).unwrap();
    assert!(bullet.contains("<w:start w:val=\"1\"/>"));
    assert!(!bullet.contains("<w:lvlRestart"));
}

fn plain_level() -> ListLevel {
    ListLevel {
        start_at: 1,
        number_format: 4,
        justification: 2,
        legal_numbering: true,
        no_restart: false,
        restart_limit: 0,
        follow: ListFollow::Tab,
        placeholder_offsets: [1, 0, 0, 0, 0, 0, 0, 0, 0],
        level_text: vec![0, u16::from(b')')],
        paragraph_sprms: Vec::new(),
        character_sprms: Vec::new(),
    }
}

#[test]
fn writes_level_indents_and_marker_run_properties() {
    let mut level = plain_level();
    // sprmPDxaLeft 720, sprmPDxaLeft1 -360.
    level.paragraph_sprms = decode_grpprl(&[0x0F, 0x84, 0xD0, 0x02, 0x11, 0x84, 0x98, 0xFE]).unwrap();
    // sprmCFBold on, sprmCFItalic off, sprmCHps 24.
    level.character_sprms = decode_grpprl(&[0x35, 0x08, 1, 0x36, 0x08, 0, 0x43, 0x4A, 24, 0]).unwrap();
    let mut xml = String::from("<w:abstractNum>");
    write_level(&mut xml, 0, &level, &FontTable::default()).unwrap();
    assert_eq!(
        xml,
        "<w:abstractNum><w:lvl w:ilvl=\"0\"><w:start w:val=\"1\"/><w:numFmt w:val=\"lowerLetter\"/><w:isLgl/>\
<w:suff w:val=\"tab\"/><w:lvlText w:val=\"%1)\"/><w:lvlJc w:val=\"right\"/>\
<w:pPr><w:ind w:left=\"720\" w:hanging=\"360\"/></w:pPr>\
<w:rPr><w:b/><w:i w:val=\"0\"/><w:sz w:val=\"24\"/></w:rPr></w:lvl>"
    );
}

#[test]
fn refuses_levels_it_cannot_write() {
    let mut level = plain_level();
    level.number_format = 8;
    let mut xml = String::from("x");
    assert!(write_level(&mut xml, 0, &level, &FontTable::default()).is_err());
    assert!(xml.starts_with('x'));
    let mut level = plain_level();
    level.justification = 3;
    assert!(write_level(&mut String::new(), 0, &level, &FontTable::default()).is_err());
    let mut level = plain_level();
    level.character_sprms = decode_grpprl(&[0x35, 0x08, 2]).unwrap();
    assert!(write_level(&mut String::new(), 0, &level, &FontTable::default()).is_err());
}

fn patched(xml: &str) -> Result<String, String> {
    let markers = parse_markers(xml).unwrap();
    assert_eq!(markers.len(), 1);
    let chars: Vec<char> = xml.chars().collect();
    patch_marker(&chars, &markers[0]).map(|out| out.into_iter().collect())
}

#[test]
fn moves_a_list_marker_into_paragraph_numbering() {
    let marker = "\u{F0000}DOCS_VIEWER_WASM_LIST_0000000A_00000002_03\u{F0001}";
    assert_eq!(
        patched(&format!("<w:p><w:r><w:t>{marker}item</w:t></w:r></w:p>")).unwrap(),
        "<w:p><w:pPr><w:numPr><w:ilvl w:val=\"3\"/><w:numId w:val=\"2\"/></w:numPr></w:pPr><w:r><w:t>item</w:t></w:r></w:p>"
    );
    assert_eq!(
        patched(&format!("<w:p w:x=\"1\"><w:pPr><w:jc/></w:pPr><w:r><w:t xml:space=\"preserve\">{marker}a</w:t></w:r></w:p>"))
            .unwrap(),
        "<w:p w:x=\"1\"><w:pPr><w:jc/><w:numPr><w:ilvl w:val=\"3\"/><w:numId w:val=\"2\"/></w:numPr></w:pPr><w:r><w:t xml:space=\"preserve\">a</w:t></w:r></w:p>"
    );
}

#[test]
fn refuses_markers_outside_one_text_and_paragraph() {
    let marker = "\u{F0000}DOCS_VIEWER_WASM_LIST_1_1_0\u{F0001}";
    assert!(patched(&format!("<w:p><w:r>{marker}</w:r></w:p><w:t></w:t>")).is_err());
    assert!(patched(&format!("<w:p><w:t></w:t>{marker}<w:t></w:t></w:p>")).is_err());
    assert!(patched(&format!("<w:body><w:t>{marker}</w:t>")).is_err());
    assert!(patched(&format!("<w:p><w:t>{marker}</w:t>")).is_err());
    assert!(patched(&format!("<w:p><w:pPr><w:numPr/></w:pPr><w:t>{marker}</w:t></w:p>")).is_err());
}

#[test]
fn patches_documents_only_through_known_lists() {
    let lists = ListCollection::default();
    let plain = b"<w:document><w:p><w:t>x</w:t></w:p></w:document>";
    let (bytes, used) = patch_document_xml(plain, &lists).unwrap();
    assert_eq!(bytes, plain.to_vec());
    assert!(used.is_empty());
    let marked = "<w:p><w:t>\u{F0000}DOCS_VIEWER_WASM_LIST_1_1_0\u{F0001}x</w:t></w:p>";
    assert!(patch_document_xml(marked.as_bytes(), &lists).is_err());
    assert!(patch_document_xml(&[0xC3], &lists).is_err());
}

#[test]
fn numbering_part_lists_only_known_instances() {
    let lists = ListCollection::default();
    let fonts = FontTable::default();
    assert_eq!(
        numbering_xml(&lists, &fonts, &[]).unwrap(),
        "<?xml version=\"1.0\" encoding=\"UTF-8\" standalone=\"yes\"?>\n<w:numbering xmlns:w=\"http://schemas.openxmlformats.org/wordprocessingml/2006/main\"></w:numbering>"
    );
    assert!(numbering_xml(&lists, &fonts, &[1]).is_err());
    assert!(numbering_xml(&lists, &fonts, &[0]).is_err());
}

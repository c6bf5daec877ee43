use legacy_doc::ooxml_ir::{
    FontSlot, color_ref, dib_to_bmp, evaluate_toggle, font_slot, indexed_color, logical_paragraph,
    paragraph_belongs_here, resolve_toggle, scaled_twips,
};
use legacy_doc::{DocError, ParagraphPropertyDelta, StyledParagraphRun, ToggleValue};

fn paragraph_run(cp_start: u32, cp_end: u32) -> StyledParagraphRun {
    StyledParagraphRun {
        direct_run_index: 0,
        cp_start,
        cp_end,
        style_index: None,
        sprms: Vec::new(),
        properties: ParagraphPropertyDelta::default(),
    }
}

#[test]
fn maps_word_colors_and_relative_toggles() {
    assert_eq!(indexed_color(6), Some([255, 0, 0]));
    assert!(resolve_toggle(
        Some(ToggleValue::SameAsStyle),
        Some(ToggleValue::On),
        Some(ToggleValue::SameAsStyle)
    ));
    assert!(!resolve_toggle(
        Some(ToggleValue::OppositeStyle),
        Some(ToggleValue::On),
        Some(ToggleValue::OppositeStyle)
    ));
}

#[test]
fn wraps_dib_in_a_bmp_file_header() {
    let mut dib = vec![0_u8; 44];
    dib[0..4].copy_from_slice(&40_u32.to_le_bytes());
    dib[14..16].copy_from_slice(&24_u16.to_le_bytes());
    let bmp = dib_to_bmp(&dib).unwrap();
    assert!(bmp.starts_with(b"BM"));
    assert_eq!(u32::from_le_bytes(bmp[10..14].try_into().unwrap()), 54);
}

#[test]
fn bmp_header_records_file_size_and_palette_offset() {
    let mut dib = vec![0_u8; 48];
    dib[0..4].copy_from_slice(&40_u32.to_le_bytes());
    dib[14..16].copy_from_slice(&1_u16.to_le_bytes());
    let bmp = dib_to_bmp(&dib).unwrap();
    assert_eq!(bmp.len(), 62);
    assert_eq!(u32::from_le_bytes(bmp[2..6].try_into().unwrap()), 62);
    assert_eq!(&bmp[6..10], &[0, 0, 0, 0]);
    // A one-bit DIB carries two four-byte palette entries.
    assert_eq!(u32::from_le_bytes(bmp[10..14].try_into().unwrap()), 14 + 40 + 8);
    assert_eq!(&bmp[14..], &dib[..]);
}

#[test]
fn rejects_truncated_or_unsupported_dibs() {
    assert!(matches!(dib_to_bmp(&[0_u8; 11]), Err(DocError::InvalidMedia(_))));
    let mut short_header = vec![0_u8; 20];
    short_header[0..4].copy_from_slice(&20_u32.to_le_bytes());
    assert!(matches!(dib_to_bmp(&short_header), Err(DocError::InvalidMedia(_))));
    let mut oversized = vec![0_u8; 20];
    oversized[0..4].copy_from_slice(&40_u32.to_le_bytes());
    assert!(matches!(dib_to_bmp(&oversized), Err(DocError::InvalidMedia(_))));
    let mut palette_overrun = vec![0_u8; 44];
    palette_overrun[0..4].copy_from_slice(&40_u32.to_le_bytes());
    palette_overrun[14..16].copy_from_slice(&8_u16.to_le_bytes());
    assert!(matches!(dib_to_bmp(&palette_overrun), Err(DocError::InvalidMedia(_))));
}

#[test]
fn toggles_evaluate_relative_to_the_style() {
    assert!(evaluate_toggle(Some(ToggleValue::On), false));
    assert!(!evaluate_toggle(Some(ToggleValue::Off), true));
    assert!(!evaluate_toggle(None, true));
    assert!(evaluate_toggle(Some(ToggleValue::SameAsStyle), true));
    assert!(evaluate_toggle(Some(ToggleValue::OppositeStyle), false));
    assert!(resolve_toggle(None, Some(ToggleValue::Off), Some(ToggleValue::On)));
    assert!(!resolve_toggle(None, Some(ToggleValue::On), None));
}

#[test]
fn colors_split_colorref_bytes_and_reject_automatic_indices() {
    assert_eq!(color_ref(0x00123456), [0x56, 0x34, 0x12]);
    assert_eq!(indexed_color(0), None);
    assert_eq!(indexed_color(16), Some([192, 192, 192]));
    assert_eq!(indexed_color(17), None);
}

#[test]
fn chooses_font_slots_by_script() {
    assert_eq!(font_slot(u16::from(b'A')), FontSlot::Ascii);
    assert_eq!(font_slot(0x05D0), FontSlot::Bidi);
    assert_eq!(font_slot(0x4E2D), FontSlot::EastAsian);
    assert_eq!(font_slot(0xFF21), FontSlot::EastAsian);
}

#[test]
fn scales_picture_extents_by_tenths_of_a_percent() {
    assert_eq!(scaled_twips(1440, 1000).unwrap(), 1440);
    assert_eq!(scaled_twips(-1440, 500).unwrap(), 720);
    assert_eq!(scaled_twips(-32768, 65535).unwrap(), 2_147_450);
}

#[test]
fn paragraph_depth_selects_the_containing_block() {
    let body = ParagraphPropertyDelta::default();
    assert!(paragraph_belongs_here(&body, None));
    assert!(!paragraph_belongs_here(&body, Some(1)));
    let in_table = ParagraphPropertyDelta { in_table: Some(true), ..ParagraphPropertyDelta::default() };
    assert!(!paragraph_belongs_here(&in_table, None));
    assert!(paragraph_belongs_here(&in_table, Some(1)));
    let nested = ParagraphPropertyDelta { table_depth: Some(2), in_table: Some(true), ..ParagraphPropertyDelta::default() };
    assert!(paragraph_belongs_here(&nested, Some(2)));
    assert!(!paragraph_belongs_here(&nested, Some(1)));
}

#[test]
fn logical_paragraph_prefers_the_run_holding_its_last_cp() {
    let runs = vec![paragraph_run(0, 5), paragraph_run(5, 10), paragraph_run(10, 20)];
    assert_eq!(logical_paragraph(&runs, 3, 8).unwrap(), (3, 8, 1));
    assert_eq!(logical_paragraph(&runs, 0, 5).unwrap(), (0, 5, 0));
    let gapped = vec![paragraph_run(0, 4), paragraph_run(6, 8)];
    assert_eq!(logical_paragraph(&gapped, 2, 5).unwrap(), (2, 5, 0));
    assert!(matches!(logical_paragraph(&gapped, 4, 6), Err(DocError::InvalidFormatting(_))));
}

use legacy_doc::sections::apply_section_properties;
use legacy_doc::{decode_grpprl, DocError, PageOrientation};

#[test]
fn applies_source_proven_page_geometry_and_columns() {
    let sprms = decode_grpprl(&[
        0x1F, 0xB0, 0xD0, 0x2F, // width 12240
        0x20, 0xB0, 0xE0, 0x3D, // height 15840
        0x21, 0xB0, 0xA0, 0x05, // left 1440
        0x23, 0x90, 0xA0, 0x05, // top 1440
        0x0B, 0x50, 0x01, 0x00, // two columns
        0x1D, 0x30, 0x02, // landscape
    ])
    .unwrap();
    let (geometry, unsupported) = apply_section_properties(&sprms).unwrap();
    assert_eq!(geometry.page_width_twips, Some(12_240));
    assert_eq!(geometry.page_height_twips, Some(15_840));
    assert_eq!(geometry.margin_left_twips, Some(1_440));
    assert_eq!(geometry.margin_top_twips, Some(1_440));
    assert_eq!(geometry.column_count, Some(2));
    assert_eq!(geometry.orientation, Some(PageOrientation::Landscape));
    assert!(unsupported.is_empty());
}

#[test]
fn retains_unknown_section_sprms_and_rejects_invalid_values() {
    let sprms = decode_grpprl(&[0x00, 0x30, 4]).unwrap();
    let (_, unsupported) = apply_section_properties(&sprms).unwrap();
    assert_eq!(unsupported, [0x3000]);

    let invalid = decode_grpprl(&[0x1F, 0xB0, 1, 0]).unwrap();
    assert!(matches!(apply_section_properties(&invalid), Err(DocError::InvalidSection(_))));
}

#[test]
fn rejects_non_section_sprms_and_keeps_the_last_value() {
    let paragraph = decode_grpprl(&[0x05, 0x24, 1]).unwrap();
    assert!(matches!(apply_section_properties(&paragraph), Err(DocError::InvalidSection(_))));
    let sprms = decode_grpprl(&[0x1D, 0x30, 0x01, 0x1D, 0x30, 0x02, 0x0B, 0x50, 44, 0]).unwrap();
    assert!(apply_section_properties(&sprms).is_err());
    let sprms = decode_grpprl(&[0x1D, 0x30, 0x02, 0x1D, 0x30, 0x01]).unwrap();
    let (geometry, _) = apply_section_properties(&sprms).unwrap();
    assert_eq!(geometry.orientation, Some(PageOrientation::Portrait));
}

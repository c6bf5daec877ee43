use legacy_doc::{
    apply_character_sprms, apply_paragraph_sprms, decode_grpprl, DocError, ToggleValue, VerticalAlignment,
};

#[test]
fn character_properties_are_last_wins_and_keep_style_relative_toggles() {
    let sprms = decode_grpprl(&[
        0x06, 0x08, 1, // picture character is binary data
        0x0A, 0x08, 1, // OLE2 field separator
        0x35, 0x08, 1, // bold on
        0x35, 0x08, 0x81, // then opposite of style
        0x43, 0x4A, 24, 0, // 12pt
        0x48, 0x2A, 2, // subscript
    ])
    .unwrap();
    let properties = apply_character_sprms(&sprms).unwrap();
    assert_eq!(properties.binary_data, Some(true));
    assert_eq!(properties.ole2, Some(true));
    assert_eq!(properties.bold, Some(ToggleValue::OppositeStyle));
    assert_eq!(properties.font_size_half_points, Some(24));
    assert_eq!(properties.vertical_alignment, Some(VerticalAlignment::Subscript));
}

#[test]
fn rejects_non_bool_binary_data_and_ole_flags() {
    for opcode in [[0x06, 0x08, 2], [0x0A, 0x08, 0x80]] {
        let sprms = decode_grpprl(&opcode).unwrap();
        assert!(matches!(apply_character_sprms(&sprms), Err(DocError::InvalidFormatting(_))));
    }
}

#[test]
fn paragraph_properties_are_last_wins_and_retain_table_sprms() {
    let sprms = decode_grpprl(&[
        0x05, 0x24, 1, // keep
        0x05, 0x24, 0, // then do not keep
        0x13, 0xA4, 120, 0, // space before
        0x49, 0x66, 2, 0, 0, 0, // table depth
        0x08, 0xD6, 4, 0, 2, 10, 0, // table-family SPRM
    ])
    .unwrap();
    let properties = apply_paragraph_sprms(&sprms).unwrap();
    assert_eq!(properties.keep_together, Some(false));
    assert_eq!(properties.space_before_twips, Some(120));
    assert_eq!(properties.table_depth, Some(2));
    assert_eq!(properties.other_group_opcodes, [0xD608]);
}

#[test]
fn rejects_invalid_known_values_without_rejecting_unknown_opcodes() {
    let invalid_toggle = decode_grpprl(&[0x35, 0x08, 2]).unwrap();
    assert!(matches!(apply_character_sprms(&invalid_toggle), Err(DocError::InvalidFormatting(_))));

    let unknown = decode_grpprl(&[0x00, 0x2B, 7]).unwrap();
    let properties = apply_character_sprms(&unknown).unwrap();
    assert_eq!(properties.unsupported_opcodes, [0x2B00]);
}

#[test]
fn decodes_normal_and_extended_tab_changes() {
    let papx = decode_grpprl(&[
        0x0D, 0xC6, 7, // cb
        1, 10, 0, // delete 10
        1, 20, 0, // add 20
        0x11, // centered, dotted leader
    ])
    .unwrap();
    let properties = apply_paragraph_sprms(&papx).unwrap();
    assert_eq!(properties.tab_changes[0].delete_positions_twips, [10]);
    assert_eq!(properties.tab_changes[0].additions[0].alignment, 1);
    assert_eq!(properties.tab_changes[0].additions[0].leader, 2);

    let extended = decode_grpprl(&[
        0x15, 0xC6, 0xFF, // specialized marker
        1, 10, 0, 25, 0, // delete position and close range
        1, 20, 0, 0, // add position and descriptor
    ])
    .unwrap();
    let properties = apply_paragraph_sprms(&extended).unwrap();
    assert!(properties.tab_changes[0].extended);
    assert_eq!(properties.tab_changes[0].delete_close_twips, Some(vec![25]));
}

#[test]
fn later_modifiers_win_and_other_families_are_listed() {
    let sprms = decode_grpprl(&[
        0x43, 0x4A, 24, 0, // 12pt
        0x61, 0x4A, 30, 0, // bidi size, same field
        0x05, 0x24, 1, // paragraph keep, other family
        0x33, 0x2A, 0, // plain
    ])
    .unwrap();
    let properties = apply_character_sprms(&sprms).unwrap();
    assert_eq!(properties.font_size_half_points, Some(30));
    assert_eq!(properties.other_group_opcodes, [0x2405]);
    assert!(properties.plain);
    assert!(properties.bold.is_none());

    // Font size outside 2..=3276, bad line-spacing mode, justification above 9.
    assert!(apply_character_sprms(&decode_grpprl(&[0x43, 0x4A, 1, 0]).unwrap()).is_err());
    assert!(apply_paragraph_sprms(&decode_grpprl(&[0x12, 0x64, 240, 0, 2, 0]).unwrap()).is_err());
    assert!(apply_paragraph_sprms(&decode_grpprl(&[0x03, 0x24, 10]).unwrap()).is_err());
    let spacing = apply_paragraph_sprms(&decode_grpprl(&[0x12, 0x64, 240, 0, 1, 0]).unwrap()).unwrap();
    assert_eq!(spacing.line_spacing.unwrap().value, 240);
    assert!(spacing.line_spacing.unwrap().multiple);
}

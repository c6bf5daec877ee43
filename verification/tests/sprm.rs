use legacy_doc::{DocError, PropertyGroup, decode_grpprl};

#[test]
fn decodes_fixed_and_variable_operands_without_losing_unknown_sprms() {
    let data = [
        0x35, 0x24, 1, // paragraph, one-byte operand
        0x36, 0x6C, 0x34, 0x12, 0x56, 0x78, // picture, four-byte operand
        0x00, 0xC6, 3, 9, 8, 7, // unknown paragraph variable operand
    ];
    let decoded = decode_grpprl(&data).unwrap();
    assert_eq!(decoded.len(), 3);
    assert_eq!(decoded[0].group, PropertyGroup::Paragraph);
    assert_eq!(decoded[0].operand, [1]);
    assert_eq!(decoded[1].group, PropertyGroup::Picture);
    assert_eq!(decoded[1].operand, [0x34, 0x12, 0x56, 0x78]);
    assert_eq!(decoded[2].operand, [3, 9, 8, 7]);
}

#[test]
fn handles_tdef_table_two_byte_length_prefix() {
    let data = [0x08, 0xD6, 4, 0, 2, 10, 0];
    let decoded = decode_grpprl(&data).unwrap();
    assert_eq!(decoded[0].group, PropertyGroup::Table);
    assert_eq!(decoded[0].operand, [4, 0, 2, 10, 0]);
}

#[test]
fn rejects_truncated_and_malformed_special_operands() {
    assert!(matches!(
        decode_grpprl(&[0x35]),
        Err(DocError::InvalidFormatting(_))
    ));
    assert!(matches!(
        decode_grpprl(&[0x15, 0xC6, 0xFF]),
        Err(DocError::InvalidFormatting(_))
    ));
}

#[test]
fn frames_extended_p_chg_tabs_and_continues_with_the_next_sprm() {
    let data = [
        0x15, 0xC6, 0xFF, // sprmPChgTabs, specialized length marker
        1,    // one delete-close record
        10, 0, // rgdxaDel
        25, 0, // rgdxaClose
        1, // one add record
        20, 0, // rgdxaAdd
        0, // rgtbdAdd
        0x05, 0x24, 1, // sprmPFKeep
    ];
    let decoded = decode_grpprl(&data).unwrap();
    assert_eq!(decoded.len(), 2);
    assert_eq!(decoded[0].operand, &data[2..12]);
    assert_eq!(decoded[1].opcode, 0x2405);
}

#[test]
fn derives_property_id_and_special_flag_and_rejects_bad_groups() {
    let decoded = decode_grpprl(&[0x08, 0xD6, 2, 0, 7]).unwrap();
    assert_eq!(decoded[0].property_id, 0x008);
    assert!(decoded[0].special);
    assert_eq!(decode_grpprl(&[]).unwrap().len(), 0);
    assert!(matches!(
        decode_grpprl(&[0x00, 0x00, 1]),
        Err(DocError::InvalidFormatting(_))
    ));
    assert!(matches!(
        decode_grpprl(&[0x08, 0xD6, 0, 0]),
        Err(DocError::InvalidFormatting(_))
    ));
}

#[test]
fn decoding_concatenated_parts_appends_their_modifiers() {
    let first = [0x35, 0x24, 1, 0x08, 0xD6, 4, 0, 2, 10, 0];
    let second = [0x36, 0x6C, 0x34, 0x12, 0x56, 0x78, 0x00, 0xC6, 3, 9, 8, 7];
    let mut joined = first.to_vec();
    joined.extend_from_slice(&second);
    let mut expected = decode_grpprl(&first).unwrap();
    expected.extend(decode_grpprl(&second).unwrap());
    let decoded = decode_grpprl(&joined).unwrap();
    assert_eq!(decoded.len(), 4);
    assert_eq!(decoded, expected);
}

#[test]
fn decoded_modifiers_cover_every_byte() {
    let data = [0x35, 0x24, 1, 0x08, 0xD6, 4, 0, 2, 10, 0, 0x36, 0x6C, 0x34, 0x12, 0x56, 0x78, 0x00, 0xC6, 3, 9, 8, 7];
    let decoded = decode_grpprl(&data).unwrap();
    assert_eq!(decoded.iter().map(|s| 2 + s.operand.len()).sum::<usize>(), data.len());
    for s in &decoded {
        assert_eq!(s.property_id, s.opcode & 0x01FF);
        assert_eq!(s.special, s.opcode & 0x0200 != 0);
    }
}

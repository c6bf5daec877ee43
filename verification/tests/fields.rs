use legacy_doc::fields::{balance_records, field_character_count};
use legacy_doc::StoryKind;

#[test]
fn balances_nested_fields() {
    let records = [(1, 0x13, 33), (3, 0x13, 26), (5, 0x15, 0), (7, 0x14, 0), (9, 0x15, 0)];
    let mut fields = Vec::new();
    balance_records(StoryKind::Main, &records, &mut fields).unwrap();
    fields.sort_by_key(|field| field.cp_begin);
    assert_eq!(fields.len(), 2);
    assert_eq!(fields[0].cp_separator, Some(7));
    assert_eq!(fields[0].depth, 0);
    assert_eq!(fields[1].depth, 1);
}

#[test]
fn rejects_bad_plc_size_and_unbalanced_sequence() {
    assert!(field_character_count(StoryKind::Headers, 9).is_err());
    assert!(balance_records(StoryKind::Headers, &[(2, 0x14, 0)], &mut Vec::new()).is_err());
}

#[test]
fn counts_field_characters_and_keeps_field_types() {
    assert_eq!(field_character_count(StoryKind::Main, 4 + 6 * 3).unwrap(), 3);
    let mut fields = Vec::new();
    balance_records(StoryKind::Main, &[(0, 0x13, 37), (4, 0x15, 0)], &mut fields).unwrap();
    assert_eq!(fields.len(), 1);
    assert_eq!(fields[0].cp_begin, 0);
    assert_eq!(fields[0].cp_end, 4);
    assert_eq!(fields[0].cp_separator, None);
    assert_eq!(fields[0].field_type, 37);
    // An unclosed begin is unbalanced.
    assert!(balance_records(StoryKind::Main, &[(0, 0x13, 37)], &mut Vec::new()).is_err());
}

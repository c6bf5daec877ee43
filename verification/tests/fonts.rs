use legacy_doc::fonts::FFN_FIXED_SIZE;
use legacy_doc::{DocError, DocLimits, FontTable};

fn ffn(name: &str, alternate: Option<&str>, charset: u8, weight: i16) -> Vec<u8> {
    let name_units = name.encode_utf16().collect::<Vec<_>>();
    let mut result = vec![0_u8; FFN_FIXED_SIZE];
    result[1..3].copy_from_slice(&weight.to_le_bytes());
    result[3] = charset;
    if alternate.is_some() {
        result[4] = u8::try_from(name_units.len() + 1).unwrap();
    }
    for unit in name_units {
        result.extend_from_slice(&unit.to_le_bytes());
    }
    result.extend_from_slice(&0_u16.to_le_bytes());
    if let Some(alternate) = alternate {
        for unit in alternate.encode_utf16() {
            result.extend_from_slice(&unit.to_le_bytes());
        }
        result.extend_from_slice(&0_u16.to_le_bytes());
    }
    result
}

#[test]
fn parses_primary_and_alternate_unicode_font_names() {
    let first = ffn("Arial", None, 0, 400);
    let second = ffn("SimSun", Some("宋体"), 134, 700);
    let mut table = Vec::new();
    table.extend_from_slice(&2_u16.to_le_bytes());
    table.extend_from_slice(&0_u16.to_le_bytes());
    for font in [&first, &second] {
        table.push(u8::try_from(font.len()).unwrap());
        table.extend_from_slice(font);
    }
    let parsed = FontTable::parse_bytes(&table, DocLimits::default()).unwrap();
    assert_eq!(parsed.get(0).unwrap().name, "Arial");
    assert_eq!(parsed.get(1).unwrap().alternate_name.as_deref(), Some("宋体"));
    assert_eq!(parsed.get(1).unwrap().weight, 700);
}

#[test]
fn rejects_bad_alias_index_and_trailing_bytes() {
    let mut font = ffn("Arial", None, 0, 400);
    font[4] = 2;
    let mut table = vec![1, 0, 0, 0, u8::try_from(font.len()).unwrap()];
    table.extend_from_slice(&font);
    assert!(matches!(FontTable::parse_bytes(&table, DocLimits::default()), Err(DocError::InvalidFont(_))));
    table[4] = 0;
    table.push(0);
    assert!(matches!(FontTable::parse_bytes(&table, DocLimits::default()), Err(DocError::InvalidFont(_))));
}

#[test]
fn enforces_font_budget_and_keeps_charset() {
    let font = ffn("Arial", None, 204, 400);
    let mut table = vec![1, 0, 0, 0, u8::try_from(font.len()).unwrap()];
    table.extend_from_slice(&font);
    let parsed = FontTable::parse_bytes(&table, DocLimits::default()).unwrap();
    assert_eq!(parsed.len(), 1);
    assert_eq!(parsed.get(0).unwrap().charset, 204);
    assert!(parsed.get(1).is_none());
    let mut limits = DocLimits::default();
    limits.max_fonts = 0;
    assert!(matches!(FontTable::parse_bytes(&table, limits), Err(DocError::ResourceLimit { .. })));
}

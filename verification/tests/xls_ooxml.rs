use legacy_doc::xls_biff::CellRange;
use legacy_doc::xls_ooxml::{cell_ref, column_name, parse_cell_ref, range_ref, set_attribute};

#[test]
fn cell_reference_round_trip_covers_last_biff8_column() {
    for (row, col, expected) in [(0, 0, "A1"), (9, 25, "Z10"), (0, 26, "AA1"), (65_535, 255, "IV65536")] {
        assert_eq!(cell_ref(row, col), expected);
        assert_eq!(parse_cell_ref(expected), Some((row, col)));
    }
}

#[test]
fn inserts_attributes_before_a_self_closing_slash() {
    assert_eq!(set_attribute("<c r=\"A1\"/>", "s", "2"), "<c r=\"A1\" s=\"2\"/>");
}

#[test]
fn replaces_existing_attributes_and_inserts_before_the_closing_bracket() {
    assert_eq!(set_attribute("<c r=\"A1\" s=\"7\">", "s", "12"), "<c r=\"A1\" s=\"12\">");
    assert_eq!(set_attribute("<row r=\"3\">", "ht", "15.00"), "<row r=\"3\" ht=\"15.00\">");
    assert_eq!(set_attribute("<row", "hidden", "1"), "<row hidden=\"1\"");
}

#[test]
fn column_names_use_bijective_base_26() {
    assert_eq!(column_name(0), "A");
    assert_eq!(column_name(51), "AZ");
    assert_eq!(column_name(52), "BA");
    assert_eq!(column_name(701), "ZZ");
    assert_eq!(column_name(702), "AAA");
}

#[test]
fn parses_lower_case_and_rejects_malformed_references() {
    assert_eq!(parse_cell_ref("b12"), Some((11, 1)));
    assert_eq!(parse_cell_ref("A007"), Some((6, 0)));
    assert_eq!(parse_cell_ref("12"), None);
    assert_eq!(parse_cell_ref("AB"), None);
    assert_eq!(parse_cell_ref("A1B"), None);
    assert_eq!(parse_cell_ref("A$1"), None);
    assert_eq!(parse_cell_ref("IW1"), None);
    assert_eq!(parse_cell_ref("A0"), None);
    assert_eq!(parse_cell_ref("A65537"), None);
    assert_eq!(parse_cell_ref("A99999999999"), None);
}

#[test]
fn ranges_collapse_single_cells() {
    assert_eq!(range_ref(CellRange { first_row: 0, last_row: 0, first_col: 0, last_col: 0 }), "A1");
    assert_eq!(range_ref(CellRange { first_row: 0, last_row: 1, first_col: 0, last_col: 1 }), "A1:B2");
}

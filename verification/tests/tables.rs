use legacy_doc::doc_tables::{RowHeightPatch, RowHeightRule, table_layout_patches};
use legacy_doc::{
    DecodedText, DocError, DocLimits, HorizontalMerge, LogicalFormattingRun, ParagraphPropertyDelta,
    PiecePropertyModifier, SemanticFormattingIndex, SemanticParagraphRun, Sprm, Story, StoryKind, TableCollection,
    VerticalMerge, apply_table_sprms, decode_grpprl,
};

fn paragraph(
    cp_start: u32,
    cp_end: u32,
    depth: i32,
    inner_cell: bool,
    inner_ttp: bool,
    ttp: bool,
    sprms: Vec<Sprm>,
) -> SemanticParagraphRun {
    SemanticParagraphRun {
        source: LogicalFormattingRun {
            cp_start,
            cp_end,
            file_start: cp_start,
            file_end: cp_end,
            paragraph_style: Some(0),
            grpprl: Vec::new(),
            piece_prm: 0,
        },
        piece_modifier: PiecePropertyModifier::NoEffect,
        sprms,
        properties: ParagraphPropertyDelta {
            in_table: Some(true),
            table_depth: Some(depth),
            inner_table_cell: inner_cell.then_some(true),
            inner_table_terminating_paragraph: inner_ttp.then_some(true),
            table_terminating_paragraph: ttp.then_some(true),
            ..ParagraphPropertyDelta::default()
        },
    }
}

fn tdef_sprm(edges: &[i16], cells: &[(u16, u16)]) -> Sprm {
    let mut bytes = vec![0x08, 0xD6];
    bytes.extend_from_slice(&tdef_operand(edges, cells));
    decode_grpprl(&bytes).unwrap().remove(0)
}

fn tdef_operand(edges: &[i16], cells: &[(u16, u16)]) -> Vec<u8> {
    let mut remainder = vec![u8::try_from(cells.len()).unwrap()];
    for edge in edges {
        remainder.extend_from_slice(&edge.to_le_bytes());
    }
    for (flags, width) in cells {
        remainder.extend_from_slice(&flags.to_le_bytes());
        remainder.extend_from_slice(&width.to_le_bytes());
        remainder.extend_from_slice(&[0; 16]);
    }
    let cb = u16::try_from(remainder.len() + 1).unwrap();
    let mut operand = cb.to_le_bytes().to_vec();
    operand.extend_from_slice(&remainder);
    operand
}

fn main_story(utf16: Vec<u16>) -> Story {
    let cp_end = u32::try_from(utf16.len()).unwrap();
    Story {
        kind: StoryKind::Main,
        cp_start: 0,
        cp_end,
        content: DecodedText { cp_start: 0, cp_end, text: String::from_utf16_lossy(&utf16), utf16 },
    }
}

#[test]
fn decodes_tdef_table_grid_and_merge_flags() {
    let operand = tdef_operand(&[-120, 1000, 2200], &[(2, 1200), (1, 1200)]);
    let mut bytes = vec![0x08, 0xD6];
    bytes.extend_from_slice(&operand);
    let sprms = decode_grpprl(&bytes).unwrap();
    let properties = apply_table_sprms(&sprms).unwrap();
    let definition = properties.definition.unwrap();
    assert_eq!(definition.column_count, 2);
    assert_eq!(definition.cell_edges_twips, [-120, 1000, 2200]);
    assert_eq!(definition.cells[0].horizontal_merge, HorizontalMerge::Start);
    assert_eq!(definition.cells[1].horizontal_merge, HorizontalMerge::Continuation);
}

#[test]
fn decodes_explicit_table_autofit_and_rejects_invalid_bool() {
    let enabled = decode_grpprl(&[0x15, 0x36, 1]).unwrap();
    assert_eq!(apply_table_sprms(&enabled).unwrap().autofit, Some(true));

    let invalid = decode_grpprl(&[0x15, 0x36, 2]).unwrap();
    assert!(matches!(apply_table_sprms(&invalid), Err(DocError::InvalidTable(_))));
}

#[test]
fn reconstructs_nested_rows_without_flattening_parent_cell_content() {
    let utf16 = vec![
        u16::from(b'X'),
        0x000D,
        u16::from(b'A'),
        0x000D,
        u16::from(b'B'),
        0x000D,
        0x000D,
        0x0007,
        0x0007,
    ];
    let story = Story {
        kind: StoryKind::Main,
        cp_start: 0,
        cp_end: 9,
        content: DecodedText { cp_start: 0, cp_end: 9, text: String::from_utf16_lossy(&utf16), utf16 },
    };
    let nested_definition = tdef_sprm(&[-100, 500, 1100], &[(0, 600), (0, 600)]);
    let outer_definition = tdef_sprm(&[-100, 1100], &[(0, 1200)]);
    let formatting = SemanticFormattingIndex {
        character_runs: Vec::new(),
        paragraph_runs: vec![
            paragraph(0, 2, 1, false, false, false, Vec::new()),
            paragraph(2, 4, 2, true, false, false, Vec::new()),
            paragraph(4, 6, 2, true, false, false, Vec::new()),
            paragraph(6, 7, 2, false, true, false, vec![nested_definition]),
            paragraph(7, 8, 1, false, false, false, Vec::new()),
            paragraph(8, 9, 1, false, false, true, vec![outer_definition]),
        ],
    };
    let tables = TableCollection::parse(&story, &formatting, DocLimits::default()).unwrap();
    assert_eq!(tables.len(), 2);
    assert_eq!(tables.tables()[0].depth, 1);
    assert_eq!(tables.tables()[0].rows[0].cells[0].cp_content_end, 7);
    assert_eq!(tables.tables()[1].depth, 2);
    assert_eq!(tables.tables()[1].rows[0].cells.len(), 2);
}

#[test]
fn keeps_last_table_scalars_padding_and_unknown_opcodes() {
    // sprmTJc twice, sprmTCellPaddingDefault for left and right, one unknown table opcode.
    let bytes = [0x00, 0x54, 1, 0, 0x00, 0x54, 2, 0, 0x34, 0xD6, 6, 0, 1, 0x0A, 3, 50, 0, 0x05, 0x34, 9];
    let sprms = decode_grpprl(&bytes).unwrap();
    let properties = apply_table_sprms(&sprms).unwrap();
    assert_eq!(properties.justification, Some(2));
    assert_eq!(properties.default_cell_margins.left, 50);
    assert_eq!(properties.default_cell_margins.right, 50);
    assert_eq!(properties.default_cell_margins.top, 0);
    assert_eq!(properties.default_cell_margins.bottom, 0);
    assert_eq!(properties.unsupported_opcodes, vec![0x3405]);
    assert!(properties.definition.is_none());
}

#[test]
fn decodes_vertical_merge_and_default_cells() {
    // Two columns but a single TC80: the second cell keeps the default format.
    let mut remainder = vec![2_u8];
    for edge in [0_i16, 500, 1000] {
        remainder.extend_from_slice(&edge.to_le_bytes());
    }
    remainder.extend_from_slice(&0x0060_u16.to_le_bytes());
    remainder.extend_from_slice(&500_u16.to_le_bytes());
    remainder.extend_from_slice(&[0; 16]);
    let mut operand = u16::try_from(remainder.len() + 1).unwrap().to_le_bytes().to_vec();
    operand.extend_from_slice(&remainder);
    let mut bytes = vec![0x08, 0xD6];
    bytes.extend_from_slice(&operand);
    let sprms = decode_grpprl(&bytes).unwrap();
    let definition = apply_table_sprms(&sprms).unwrap().definition.unwrap();
    assert_eq!(definition.cells.len(), 2);
    assert_eq!(definition.cells[0].vertical_merge, VerticalMerge::StartAndEnd);
    assert_eq!(definition.cells[0].preferred_width, 500);
    assert_eq!(definition.cells[1].vertical_merge, VerticalMerge::Unmerged);
    assert_eq!(definition.cells[1].horizontal_merge, HorizontalMerge::Unmerged);

    let decreasing = tdef_operand(&[500, 0, 1000], &[(0, 500), (0, 500)]);
    let mut bytes = vec![0x08, 0xD6];
    bytes.extend_from_slice(&decreasing);
    let sprms = decode_grpprl(&bytes).unwrap();
    assert!(matches!(apply_table_sprms(&sprms), Err(DocError::InvalidTable(_))));
}

#[test]
fn rejects_rows_without_ttp_and_stories_other_than_main() {
    let story = main_story(vec![u16::from(b'A'), 0x0007, 0x0007]);
    let definition = tdef_sprm(&[0, 1000], &[(0, 1000)]);
    let formatting = SemanticFormattingIndex {
        character_runs: Vec::new(),
        paragraph_runs: vec![paragraph(0, 2, 1, false, false, false, Vec::new())],
    };
    assert!(matches!(
        TableCollection::parse(&story, &formatting, DocLimits::default()),
        Err(DocError::InvalidTable(_))
    ));

    let formatting = SemanticFormattingIndex {
        character_runs: Vec::new(),
        paragraph_runs: vec![
            paragraph(0, 2, 1, false, false, false, Vec::new()),
            paragraph(2, 3, 1, false, false, true, vec![definition]),
        ],
    };
    let tables = TableCollection::parse(&story, &formatting, DocLimits::default()).unwrap();
    assert_eq!(tables.len(), 1);
    assert_eq!(tables.tables()[0].rows[0].cells[0].cp_start, 0);
    assert_eq!(tables.tables()[0].rows[0].cells[0].cp_end, 2);
    let limits = DocLimits { max_table_rows: 0, ..DocLimits::default() };
    assert!(matches!(
        TableCollection::parse(&story, &formatting, limits),
        Err(DocError::ResourceLimit { resource: "table-row", .. })
    ));

    let mut footnotes = story.clone();
    footnotes.kind = StoryKind::Footnotes;
    assert!(matches!(
        TableCollection::parse(&footnotes, &formatting, DocLimits::default()),
        Err(DocError::InvalidTable(_))
    ));
}

#[test]
fn orders_row_height_patches_by_start_and_flags_fixed_tables() {
    let utf16 = vec![u16::from(b'X'), 0x000D, u16::from(b'A'), 0x000D, u16::from(b'B'), 0x000D, 0x000D, 0x0007, 0x0007];
    let story = main_story(utf16);
    let mut nested = vec![tdef_sprm(&[-100, 500, 1100], &[(0, 600), (0, 600)])];
    nested.extend(decode_grpprl(&[0x07, 0x94, 0x2C, 0x01]).unwrap()); // 300 twips
    let mut outer = vec![tdef_sprm(&[-100, 1100], &[(0, 1200)])];
    outer.extend(decode_grpprl(&[0x07, 0x94, 0x38, 0xFF, 0x15, 0x36, 0x01]).unwrap()); // -200 twips, autofit
    let formatting = SemanticFormattingIndex {
        character_runs: Vec::new(),
        paragraph_runs: vec![
            paragraph(0, 2, 1, false, false, false, Vec::new()),
            paragraph(2, 4, 2, true, false, false, Vec::new()),
            paragraph(4, 6, 2, true, false, false, Vec::new()),
            paragraph(6, 7, 2, false, true, false, nested),
            paragraph(7, 8, 1, false, false, false, Vec::new()),
            paragraph(8, 9, 1, false, false, true, outer),
        ],
    };
    let tables = TableCollection::parse(&story, &formatting, DocLimits::default()).unwrap();
    let (fixed, heights) = table_layout_patches(&tables, &[false, true]);
    assert_eq!(fixed, [false, true]);
    assert_eq!(
        heights,
        [
            RowHeightPatch { cp_start: 0, height_twips: 200, rule: RowHeightRule::Exact },
            RowHeightPatch { cp_start: 2, height_twips: 300, rule: RowHeightRule::Exact },
        ]
    );
}

use legacy_doc::notes::{parse_boundaries, parse_references};
use legacy_doc::{DecodedText, NoteKind, Story, StoryKind};

#[test]
fn parses_reference_and_body_plcs() {
    let mut references = Vec::new();
    for cp in [4_u32, 9, 12] {
        references.extend_from_slice(&cp.to_le_bytes());
    }
    references.extend_from_slice(&1_u16.to_le_bytes());
    references.extend_from_slice(&0_u16.to_le_bytes());
    assert_eq!(parse_references(NoteKind::Footnote, &references, 20).unwrap(), vec![(4, true), (9, false)]);

    let story = Story {
        kind: StoryKind::Footnotes,
        cp_start: 20,
        cp_end: 31,
        content: DecodedText { cp_start: 20, cp_end: 31, text: String::new(), utf16: Vec::new() },
    };
    let mut boundaries = Vec::new();
    for cp in [0_u32, 5, 10, 1234] {
        boundaries.extend_from_slice(&cp.to_le_bytes());
    }
    assert_eq!(parse_boundaries(NoteKind::Footnote, &boundaries, 2, &story).unwrap(), vec![0, 5, 10]);
}

#[test]
fn rejects_mismatched_and_duplicate_plcs() {
    assert!(parse_references(NoteKind::Endnote, &[0; 9], 10).is_err());
    let mut references = Vec::new();
    for cp in [2_u32, 2] {
        references.extend_from_slice(&cp.to_le_bytes());
    }
    references.extend_from_slice(&1_u16.to_le_bytes());
    assert!(parse_references(NoteKind::Endnote, &references, 10).is_err());
}

#[test]
fn rejects_reference_outside_main_story_and_bad_final_boundary() {
    let mut references = Vec::new();
    for cp in [12_u32, 13] {
        references.extend_from_slice(&cp.to_le_bytes());
    }
    references.extend_from_slice(&0_u16.to_le_bytes());
    assert!(parse_references(NoteKind::Footnote, &references, 10).is_err());

    let story = Story {
        kind: StoryKind::Endnotes,
        cp_start: 20,
        cp_end: 31,
        content: DecodedText { cp_start: 20, cp_end: 31, text: String::new(), utf16: Vec::new() },
    };
    let mut boundaries = Vec::new();
    for cp in [0_u32, 9, 12] {
        boundaries.extend_from_slice(&cp.to_le_bytes());
    }
    assert!(parse_boundaries(NoteKind::Endnote, &boundaries, 1, &story).is_err());
}

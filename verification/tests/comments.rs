use legacy_doc::comments::{
    parse_annotation_ends, parse_annotation_metadata, parse_annotation_starts, parse_authors,
    parse_boundaries, parse_references, CommentReference,
};
use legacy_doc::{CommentCollection, DecodedText, DocError, DocLimits, SourceComment, Story, StoryKind};

#[test]
fn parses_plcfandref_metadata_and_boundaries() {
    let mut references = Vec::new();
    references.extend_from_slice(&4_u32.to_le_bytes());
    references.extend_from_slice(&9_u32.to_le_bytes());
    references.extend_from_slice(&2_u16.to_le_bytes());
    for value in ['A' as u16, 'Б' as u16].into_iter().chain(std::iter::repeat_n(0, 7)) {
        references.extend_from_slice(&value.to_le_bytes());
    }
    references.extend_from_slice(&3_u16.to_le_bytes());
    references.extend_from_slice(&0_u16.to_le_bytes());
    references.extend_from_slice(&0_u16.to_le_bytes());
    references.extend_from_slice(&(-1_i32).to_le_bytes());
    assert_eq!(
        parse_references(&references, 20).unwrap(),
        vec![CommentReference { cp: 4, initials: "AБ".into(), author_index: 3, bookmark_tag: -1 }]
    );

    let story = Story {
        kind: StoryKind::Comments,
        cp_start: 20,
        cp_end: 28,
        content: DecodedText { cp_start: 20, cp_end: 28, text: String::new(), utf16: Vec::new() },
    };
    let mut boundaries = Vec::new();
    for cp in [0_u32, 7, 999] {
        boundaries.extend_from_slice(&cp.to_le_bytes());
    }
    assert_eq!(parse_boundaries(&boundaries, 1, &story).unwrap(), vec![0, 7]);
}

#[test]
fn rejects_bad_plc_shape_reserved_fields_and_duplicates() {
    assert!(parse_references(&[0; 9], 10).is_err());
    let mut duplicate = Vec::new();
    duplicate.extend_from_slice(&2_u32.to_le_bytes());
    duplicate.extend_from_slice(&2_u32.to_le_bytes());
    duplicate.extend_from_slice(&[0; 30]);
    assert!(parse_references(&duplicate, 10).is_err());

    let mut reserved = Vec::new();
    reserved.extend_from_slice(&2_u32.to_le_bytes());
    reserved.extend_from_slice(&3_u32.to_le_bytes());
    reserved.extend_from_slice(&[0; 22]);
    reserved.extend_from_slice(&1_u16.to_le_bytes());
    reserved.extend_from_slice(&0_u16.to_le_bytes());
    reserved.extend_from_slice(&(-1_i32).to_le_bytes());
    assert!(parse_references(&reserved, 10).is_err());
}

#[test]
fn parses_unique_utf16_comment_authors_and_rejects_invalid_tables() {
    let mut bytes = Vec::new();
    for author in ["Anonymous", "Райан"] {
        let utf16 = author.encode_utf16().collect::<Vec<_>>();
        bytes.extend_from_slice(&u16::try_from(utf16.len()).unwrap().to_le_bytes());
        for value in utf16 {
            bytes.extend_from_slice(&value.to_le_bytes());
        }
    }
    assert_eq!(parse_authors(&bytes).unwrap(), ["Anonymous".to_string(), "Райан".to_string()]);

    let duplicate = [1, 0, b'A', 0, 1, 0, b'A', 0];
    assert!(parse_authors(&duplicate).is_err());
    assert!(parse_authors(&[56, 0]).is_err());
    assert!(parse_authors(&[1, 0, b'A']).is_err());
}

fn comment(id: u32, reference_cp: u32, tag: i32, anchor: (u32, u32)) -> SourceComment {
    SourceComment {
        comment_id: id,
        reference_cp,
        cp_start: 10 + 3 * (id - 1),
        cp_end: 13 + 3 * (id - 1),
        initials: String::new(),
        author_index: 0,
        author: String::new(),
        bookmark_tag: tag,
        anchor_cp_start: Some(anchor.0),
        anchor_cp_end: Some(anchor.1),
    }
}

#[test]
fn parses_and_indexes_annotation_bookmark_ranges() {
    let mut metadata = Vec::new();
    metadata.extend_from_slice(&0xFFFF_u16.to_le_bytes());
    metadata.extend_from_slice(&2_u16.to_le_bytes());
    metadata.extend_from_slice(&10_u16.to_le_bytes());
    for tag in [17_u32, 23] {
        metadata.extend_from_slice(&0_u16.to_le_bytes());
        metadata.extend_from_slice(&0x0100_u16.to_le_bytes());
        metadata.extend_from_slice(&tag.to_le_bytes());
        metadata.extend_from_slice(&(-1_i32).to_le_bytes());
    }
    assert_eq!(parse_annotation_metadata(&metadata, DocLimits::default()).unwrap(), [17, 23]);

    let mut starts = Vec::new();
    for cp in [1_u32, 2, 12] {
        starts.extend_from_slice(&cp.to_le_bytes());
    }
    starts.extend_from_slice(&1_u16.to_le_bytes());
    starts.extend_from_slice(&0_u16.to_le_bytes());
    starts.extend_from_slice(&0_u16.to_le_bytes());
    starts.extend_from_slice(&0_u16.to_le_bytes());
    assert_eq!(parse_annotation_starts(&starts, 2, 10).unwrap(), [(1, 1), (2, 0)]);

    let mut ends = Vec::new();
    for cp in [4_u32, 8, 12] {
        ends.extend_from_slice(&cp.to_le_bytes());
    }
    assert_eq!(parse_annotation_ends(&ends, 2, 10).unwrap(), [4, 8]);

    let comments = vec![comment(1, 8, 17, (1, 8)), comment(2, 4, 23, (2, 4))];
    let collection = CommentCollection::from_parts(vec![String::new()], comments);
    assert_eq!(
        collection.ranges_starting_at(2).iter().map(|comment| comment.comment_id).collect::<Vec<_>>(),
        [2]
    );
    assert_eq!(
        collection.ranges_ending_at(8).iter().map(|comment| comment.comment_id).collect::<Vec<_>>(),
        [1]
    );

    let mut forbidden = starts;
    let bkc_offset = (2 + 1) * 4 + 2;
    forbidden[bkc_offset..bkc_offset + 2].copy_from_slice(&0x8000_u16.to_le_bytes());
    assert!(parse_annotation_starts(&forbidden, 2, 10).is_err());
}

#[test]
fn projection_markers_carry_eight_upper_hex_digits() {
    let c = comment(0x2A, 1, -1, (0, 0));
    assert_eq!(c.projection_marker(), "\u{F0000}ZRIMO_COMMENT_0000002A\u{F0001}");
    assert_eq!(
        c.range_start_projection_marker(),
        "\u{F0000}ZRIMO_COMMENT_RANGE_START_0000002A\u{F0001}"
    );
    assert_eq!(
        c.range_end_projection_marker(),
        "\u{F0000}ZRIMO_COMMENT_RANGE_END_0000002A\u{F0001}"
    );
    assert_eq!(c.content_cp_start(), c.cp_start + 1);
}

#[test]
fn reference_lookup_and_bookmark_errors() {
    let comments = vec![comment(1, 4, 17, (1, 4)), comment(2, 9, 23, (2, 9))];
    let collection = CommentCollection::from_parts(vec!["A".to_string()], comments);
    assert_eq!(collection.reference_at(9).map(|c| c.comment_id), Some(2));
    assert!(collection.reference_at(5).is_none());
    assert_eq!(collection.authors(), ["A".to_string()]);
    assert_eq!(collection.comments().len(), 2);

    // Bad STTB marker, limit overflow and trailing bytes.
    assert!(matches!(parse_annotation_metadata(&[0, 0], DocLimits::default()), Err(DocError::InvalidComment(_))));
    let mut limits = DocLimits::default();
    limits.max_comments = 1;
    let header = [0xFF, 0xFF, 2, 0, 10, 0];
    assert!(matches!(parse_annotation_metadata(&header, limits), Err(DocError::ResourceLimit { .. })));
    assert!(matches!(parse_annotation_metadata(&[0xFF, 0xFF], DocLimits::default()), Err(DocError::OutOfBounds { .. })));
    // Ends must finish with the guard main + 2.
    let mut ends = Vec::new();
    for cp in [4_u32, 11] {
        ends.extend_from_slice(&cp.to_le_bytes());
    }
    assert!(parse_annotation_ends(&ends, 1, 10).is_err());
}

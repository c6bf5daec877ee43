use legacy_doc::fib::WORD_BINARY_IDENT;
use legacy_doc::{DocError, DocLimits, Fib, StoryLengths};

fn fib_bytes(stories: StoryLengths) -> Vec<u8> {
    let mut data = vec![0_u8; 32];
    data[0..2].copy_from_slice(&WORD_BINARY_IDENT.to_le_bytes());
    data[2..4].copy_from_slice(&0x00C1_u16.to_le_bytes());
    data[6..8].copy_from_slice(&0x0419_u16.to_le_bytes());
    data[10..12].copy_from_slice(&(1_u16 << 9).to_le_bytes());
    data.extend_from_slice(&14_u16.to_le_bytes());
    data.extend_from_slice(&[0_u8; 28]);
    data.extend_from_slice(&22_u16.to_le_bytes());
    let mut lw = [0_u32; 22];
    lw[0] = 4096;
    lw[3] = stories.main;
    lw[4] = stories.footnotes;
    lw[5] = stories.headers;
    lw[7] = stories.comments;
    lw[8] = stories.endnotes;
    lw[9] = stories.textboxes;
    lw[10] = stories.header_textboxes;
    for value in lw {
        data.extend_from_slice(&value.to_le_bytes());
    }
    data.extend_from_slice(&37_u16.to_le_bytes());
    for index in 0..37_u32 {
        data.extend_from_slice(&(index * 10).to_le_bytes());
        data.extend_from_slice(&5_u32.to_le_bytes());
    }
    data.extend_from_slice(&0_u16.to_le_bytes());
    data
}

#[test]
fn parses_variable_fib_and_named_locations() {
    let stories = StoryLengths {
        main: 8,
        footnotes: 3,
        headers: 2,
        ..StoryLengths::default()
    };
    let fib = Fib::parse(&fib_bytes(stories), DocLimits::default()).unwrap();
    assert_eq!(fib.base.language_id, 0x0419);
    assert!(fib.base.use_table1);
    assert_eq!(fib.stories, stories);
    assert_eq!(fib.stories.piece_table_end().unwrap(), 14);
    assert_eq!(fib.locations.clx().unwrap().offset, 330);
    assert_eq!(fib.locations.paragraph_bte().unwrap().offset, 130);
    assert_eq!(fib.locations.comment_authors().unwrap().offset, 360);
}

#[test]
fn follows_count_fields_instead_of_fixed_offsets() {
    let mut bytes = fib_bytes(StoryLengths {
        main: 1,
        ..StoryLengths::default()
    });
    bytes[32..34].copy_from_slice(&15_u16.to_le_bytes());
    bytes.splice(62..62, [0_u8; 2]);
    let fib = Fib::parse(&bytes, DocLimits::default()).unwrap();
    assert_eq!(fib.stories.main, 1);
    assert_eq!(fib.locations.clx().unwrap().offset, 330);
}

#[test]
fn rejects_encryption_negative_counts_and_missing_clx_pair() {
    let mut encrypted = fib_bytes(StoryLengths::default());
    encrypted[10..12].copy_from_slice(&(1_u16 << 8).to_le_bytes());
    assert_eq!(
        Fib::parse(&encrypted, DocLimits::default()),
        Err(DocError::PasswordProtected)
    );

    let mut negative = fib_bytes(StoryLengths::default());
    negative[76..80].copy_from_slice(&(-1_i32).to_le_bytes());
    assert!(matches!(
        Fib::parse(&negative, DocLimits::default()),
        Err(DocError::InvalidFib(_))
    ));

    let mut missing = fib_bytes(StoryLengths::default());
    let pair_count_offset = 32 + 2 + 28 + 2 + 88;
    missing[pair_count_offset..pair_count_offset + 2].copy_from_slice(&10_u16.to_le_bytes());
    missing.truncate(pair_count_offset + 2 + 10 * 8 + 2);
    assert!(matches!(
        Fib::parse(&missing, DocLimits::default()),
        Err(DocError::InvalidFib(_))
    ));
}

#[test]
fn enforces_character_budget() {
    let bytes = fib_bytes(StoryLengths {
        main: 101,
        ..StoryLengths::default()
    });
    let limits = DocLimits {
        max_characters: 100,
        ..DocLimits::default()
    };
    assert!(matches!(
        Fib::parse(&bytes, limits),
        Err(DocError::ResourceLimit {
            resource: "character",
            ..
        })
    ));
}

#[test]
fn rejects_word6_and_unknown_identifiers() {
    let mut word6 = fib_bytes(StoryLengths::default());
    word6[0..2].copy_from_slice(&0xA5DC_u16.to_le_bytes());
    word6[2..4].copy_from_slice(&0x0065_u16.to_le_bytes());
    assert_eq!(
        Fib::parse(&word6, DocLimits::default()),
        Err(DocError::UnsupportedVersion(0x0065))
    );
    let mut unknown = fib_bytes(StoryLengths::default());
    unknown[0..2].copy_from_slice(&0x1234_u16.to_le_bytes());
    assert!(matches!(
        Fib::parse(&unknown, DocLimits::default()),
        Err(DocError::InvalidFib(_))
    ));
    assert!(matches!(
        Fib::parse(&[0_u8; 31], DocLimits::default()),
        Err(DocError::InvalidFib(_))
    ));
}

#[test]
fn story_totals_and_terminal_cp() {
    let main_only = StoryLengths {
        main: 5,
        ..StoryLengths::default()
    };
    assert_eq!(main_only.total(), Ok(5));
    assert_eq!(main_only.piece_table_end(), Ok(5));
    let with_notes = StoryLengths {
        main: 5,
        endnotes: 2,
        ..StoryLengths::default()
    };
    assert_eq!(with_notes.total(), Ok(7));
    assert_eq!(with_notes.piece_table_end(), Ok(8));
    let overflow = StoryLengths {
        main: u32::MAX,
        footnotes: 1,
        ..StoryLengths::default()
    };
    assert!(matches!(overflow.total(), Err(DocError::InvalidFib(_))));
}

#[test]
fn names_short_streams_and_foreign_identifiers() {
    assert!(matches!(
        Fib::parse(&[0; 10], DocLimits::default()),
        Err(DocError::InvalidFib(text)) if text == "WordDocument stream has 10 bytes; FibBase needs 32"
    ));
    let mut data = vec![0_u8; 64];
    data[0] = 0x34;
    data[1] = 0x12;
    assert!(matches!(
        Fib::parse(&data, DocLimits::default()),
        Err(DocError::InvalidFib(text)) if text == "unexpected wIdent 0x1234"
    ));
}

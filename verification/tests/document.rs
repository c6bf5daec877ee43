use legacy_doc::{DocError, DocLimits, StoryKind, WordBinaryDocument};

const COMPRESSED_FLAG: u32 = 0x4000_0000;

fn make_fib(cb_mac: u32, main: u32, footnotes: u32, fc_clx: u32, lcb_clx: u32) -> Vec<u8> {
    let mut data = vec![0_u8; 32];
    data[0..2].copy_from_slice(&0xA5EC_u16.to_le_bytes());
    data[2..4].copy_from_slice(&0x00C1_u16.to_le_bytes());
    data[6..8].copy_from_slice(&0x0409_u16.to_le_bytes());
    data[10..12].copy_from_slice(&(1_u16 << 9).to_le_bytes());
    data.extend_from_slice(&14_u16.to_le_bytes());
    data.extend_from_slice(&[0_u8; 28]);
    data.extend_from_slice(&22_u16.to_le_bytes());
    let mut lw = [0_u32; 22];
    lw[0] = cb_mac;
    lw[3] = main;
    lw[4] = footnotes;
    for value in lw {
        data.extend_from_slice(&value.to_le_bytes());
    }
    data.extend_from_slice(&34_u16.to_le_bytes());
    for index in 0..34 {
        let (fc, lcb) = if index == 33 {
            (fc_clx, lcb_clx)
        } else {
            (0, 0)
        };
        data.extend_from_slice(&fc.to_le_bytes());
        data.extend_from_slice(&lcb.to_le_bytes());
    }
    data.extend_from_slice(&0_u16.to_le_bytes());
    data
}

fn make_clx(cps: &[u32], pieces: &[(u32, u16)]) -> Vec<u8> {
    let mut plc = Vec::new();
    for cp in cps {
        plc.extend_from_slice(&cp.to_le_bytes());
    }
    for (fc, prm) in pieces {
        plc.extend_from_slice(&0_u16.to_le_bytes());
        plc.extend_from_slice(&fc.to_le_bytes());
        plc.extend_from_slice(&prm.to_le_bytes());
    }
    let mut clx = vec![0x02];
    clx.extend_from_slice(&u32::try_from(plc.len()).unwrap().to_le_bytes());
    clx.extend_from_slice(&plc);
    clx
}

fn synthetic_streams() -> (Vec<u8>, Vec<u8>) {
    let clx = make_clx(
        &[0, 4, 6, 7],
        &[
            (1024, 0),
            (COMPRESSED_FLAG | (1100 * 2), 0),
            (COMPRESSED_FLAG | (1102 * 2), 0),
        ],
    );
    let mut table = vec![0_u8; 128];
    table.extend_from_slice(&clx);

    let mut word = make_fib(1103, 4, 2, 128, u32::try_from(clx.len()).unwrap());
    word.resize(1103, 0);
    word[1024..1032].copy_from_slice(&[0x1F, 0x04, 0x40, 0x04, 0x38, 0x04, 0x32, 0x04]);
    word[1100..1102].copy_from_slice(&[b'A', 0x93]);
    word[1102] = b'\r';
    (word, table)
}

#[test]
fn assembles_mixed_unicode_stories_from_source_cps() {
    let (word, table) = synthetic_streams();
    let document =
        WordBinaryDocument::from_streams(word, table, None, "1Table", DocLimits::default())
            .unwrap();
    assert_eq!(document.fib().effective_version, 0x00C1);
    assert_eq!(
        document.story(StoryKind::Main).unwrap().content.text,
        "Прив"
    );
    assert_eq!(
        document.story(StoryKind::Footnotes).unwrap().content.text,
        "A“"
    );
    assert_eq!(document.piece_table().cp_end(), 7);
    assert_eq!(document.decode_range(2, 5).unwrap().text, "ивA");
}

#[test]
fn rejects_wrong_table_stream_and_oob_cb_mac() {
    let (word, table) = synthetic_streams();
    assert!(matches!(
        WordBinaryDocument::from_streams(
            word.clone(),
            table.clone(),
            None,
            "0Table",
            DocLimits::default()
        ),
        Err(DocError::InvalidFib(_))
    ));

    let mut truncated = word;
    truncated.truncate(1102);
    assert!(matches!(
        WordBinaryDocument::from_streams(
            truncated,
            table,
            None,
            "1Table",
            DocLimits::default()
        ),
        Err(DocError::OutOfBounds { .. })
    ));
}

#[test]
fn stories_follow_global_cp_order_and_stream_accessors_keep_bytes() {
    let (word, table) = synthetic_streams();
    let document = WordBinaryDocument::from_streams(
        word,
        table.clone(),
        Some(vec![1, 2, 3]),
        "1Table",
        DocLimits::default(),
    )
    .unwrap();
    let stories = document.stories();
    assert_eq!(stories.len(), 7);
    assert_eq!((stories[0].cp_start, stories[0].cp_end), (0, 4));
    assert_eq!((stories[1].cp_start, stories[1].cp_end), (4, 6));
    assert_eq!((stories[6].cp_start, stories[6].cp_end), (6, 6));
    assert_eq!(document.table_stream(), table.as_slice());
    assert_eq!(document.data_stream(), Some(&[1_u8, 2, 3][..]));
    assert_eq!(document.table_stream_name(), "1Table");
    assert_eq!(document.word_document_stream().len(), 1103);
}

#[test]
fn enforces_stream_limits_before_parsing() {
    let (word, table) = synthetic_streams();
    let limits = DocLimits {
        max_stream_bytes: 1000,
        ..DocLimits::default()
    };
    assert!(matches!(
        WordBinaryDocument::from_streams(word, table, None, "1Table", limits),
        Err(DocError::StreamTooLarge {
            stream: "WordDocument",
            ..
        })
    ));
}

const END_OF_CHAIN: u32 = 0xFFFF_FFFE;
const NO_STREAM: u32 = 0xFFFF_FFFF;

fn directory_entry(name: &str, entry_type: u8, child: u32, right: u32, start: u32, size: u32) -> Vec<u8> {
    let mut entry = vec![0_u8; 128];
    let units: Vec<u16> = name.encode_utf16().collect();
    for (index, unit) in units.iter().enumerate() {
        entry[index * 2..index * 2 + 2].copy_from_slice(&unit.to_le_bytes());
    }
    let name_size = u16::try_from((units.len() + 1) * 2).unwrap();
    entry[0x40..0x42].copy_from_slice(&name_size.to_le_bytes());
    entry[0x42] = entry_type;
    entry[0x43] = 1;
    entry[0x44..0x48].copy_from_slice(&NO_STREAM.to_le_bytes());
    entry[0x48..0x4C].copy_from_slice(&right.to_le_bytes());
    entry[0x4C..0x50].copy_from_slice(&child.to_le_bytes());
    entry[0x74..0x78].copy_from_slice(&start.to_le_bytes());
    entry[0x78..0x7C].copy_from_slice(&size.to_le_bytes());
    entry
}

/// A version 3 compound file holding `streams` in regular sectors.
fn compound_file(streams: &[(&str, &[u8])]) -> Vec<u8> {
    let mut header = vec![0_u8; 512];
    header[0..8].copy_from_slice(&[0xD0, 0xCF, 0x11, 0xE0, 0xA1, 0xB1, 0x1A, 0xE1]);
    header[0x18..0x1A].copy_from_slice(&0x3E_u16.to_le_bytes());
    header[0x1A..0x1C].copy_from_slice(&3_u16.to_le_bytes());
    header[0x1C..0x1E].copy_from_slice(&0xFFFE_u16.to_le_bytes());
    header[0x1E..0x20].copy_from_slice(&9_u16.to_le_bytes());
    header[0x20..0x22].copy_from_slice(&6_u16.to_le_bytes());
    header[0x2C..0x30].copy_from_slice(&1_u32.to_le_bytes());
    header[0x30..0x34].copy_from_slice(&1_u32.to_le_bytes());
    header[0x38..0x3C].copy_from_slice(&4096_u32.to_le_bytes());
    header[0x3C..0x40].copy_from_slice(&END_OF_CHAIN.to_le_bytes());
    header[0x44..0x48].copy_from_slice(&END_OF_CHAIN.to_le_bytes());
    for slot in 0..109 {
        let value = if slot == 0 { 0 } else { NO_STREAM };
        header[0x4C + slot * 4..0x50 + slot * 4].copy_from_slice(&value.to_le_bytes());
    }

    let mut fat = vec![0xFFFF_FFFD_u32, END_OF_CHAIN];
    let mut directory = directory_entry("Root Entry", 5, 1, NO_STREAM, END_OF_CHAIN, 0);
    let mut payload = Vec::new();
    for (index, (name, bytes)) in streams.iter().enumerate() {
        let start = u32::try_from(fat.len()).unwrap();
        let sectors = bytes.len().div_ceil(512).max(1);
        for sector in 0..sectors {
            let next = if sector + 1 == sectors { END_OF_CHAIN } else { start + u32::try_from(sector).unwrap() + 1 };
            fat.push(next);
        }
        let right = if index + 1 == streams.len() { NO_STREAM } else { u32::try_from(index).unwrap() + 2 };
        let size = u32::try_from(bytes.len()).unwrap();
        directory.extend_from_slice(&directory_entry(name, 2, NO_STREAM, right, start, size));
        let mut stored = bytes.to_vec();
        stored.resize(sectors * 512, 0);
        payload.extend_from_slice(&stored);
    }
    assert!(fat.len() <= 128 && directory.len() <= 512);
    fat.resize(128, NO_STREAM);
    directory.resize(512, 0);

    let mut file = header;
    for entry in fat {
        file.extend_from_slice(&entry.to_le_bytes());
    }
    file.extend_from_slice(&directory);
    file.extend_from_slice(&payload);
    file
}

#[test]
fn enforces_input_limit_before_compound_parsing() {
    let limits = DocLimits {
        max_input_bytes: 3,
        ..DocLimits::default()
    };
    assert!(matches!(
        WordBinaryDocument::from_bytes_with_limits(&[0; 4], limits),
        Err(DocError::InputTooLarge {
            actual: 4,
            limit: 3
        })
    ));
}

#[test]
fn rejects_bytes_that_are_not_a_compound_file() {
    assert!(matches!(WordBinaryDocument::from_bytes(b"plain text"), Err(DocError::CompoundFile(_))));
}

#[test]
fn opens_streams_from_a_compound_file() {
    let (word, table) = synthetic_streams();
    let file = compound_file(&[("WordDocument", &word), ("1Table", &table)]);
    let document = WordBinaryDocument::from_bytes(&file).unwrap();
    assert_eq!(document.table_stream_name(), "1Table");
    assert_eq!(document.word_document_stream(), &word[..]);
    assert_eq!(document.table_stream(), &table[..]);
    assert!(document.data_stream().is_none());
    assert_eq!(document.story(StoryKind::Main).unwrap().content.text, "Прив");
}

#[test]
fn keeps_the_optional_data_stream() {
    let (word, table) = synthetic_streams();
    let data = [7_u8; 600];
    let file = compound_file(&[("WordDocument", &word), ("1Table", &table), ("Data", &data)]);
    let document = WordBinaryDocument::from_bytes(&file).unwrap();
    assert_eq!(document.data_stream(), Some(&data[..]));
}

#[test]
fn reports_missing_and_oversized_streams() {
    let (word, table) = synthetic_streams();
    let without_word = compound_file(&[("1Table", &table)]);
    assert!(matches!(
        WordBinaryDocument::from_bytes(&without_word),
        Err(DocError::MissingStream("WordDocument"))
    ));
    let without_table = compound_file(&[("WordDocument", &word)]);
    assert!(matches!(
        WordBinaryDocument::from_bytes(&without_table),
        Err(DocError::MissingStream("1Table"))
    ));
    let file = compound_file(&[("WordDocument", &word), ("1Table", &table)]);
    let limits = DocLimits { max_stream_bytes: 1000, ..DocLimits::default() };
    assert!(matches!(
        WordBinaryDocument::from_bytes_with_limits(&file, limits),
        Err(DocError::StreamTooLarge { stream: "WordDocument", actual: 1103, limit: 1000 })
    ));
}

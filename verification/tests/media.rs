use legacy_doc::media::{
    MM_SHAPE, MM_SHAPEFILE, NIL_PICF_HEADER_SIZE, NIL_PICF_HEADER_SIZE_U32, OFFICE_ART_FBSE, OFFICE_ART_SP_CONTAINER,
    PICF_HEADER_SIZE, parse_picf, validate_nil_picf_and_bin_data,
};
use legacy_doc::{BlipFormat, DocError, DocLimits, PictureStorage};

fn record(version: u8, instance: u16, record_type: u16, payload: &[u8]) -> Vec<u8> {
    let mut result = Vec::new();
    result.extend_from_slice(&((instance << 4) | u16::from(version)).to_le_bytes());
    result.extend_from_slice(&record_type.to_le_bytes());
    result.extend_from_slice(&u32::try_from(payload.len()).unwrap().to_le_bytes());
    result.extend_from_slice(payload);
    result
}

fn png_blip() -> Vec<u8> {
    let mut payload = vec![0_u8; 17];
    payload.extend_from_slice(b"\x89PNG\r\n\x1a\nfixture");
    record(0, 0x6E0, 0xF01E, &payload)
}

fn picf_with(file_block: &[u8]) -> Vec<u8> {
    let shape = record(0xF, 0, OFFICE_ART_SP_CONTAINER, &[]);
    let mut result = vec![0_u8; PICF_HEADER_SIZE];
    result[4..6].copy_from_slice(&u16::try_from(PICF_HEADER_SIZE).unwrap().to_le_bytes());
    result[6..8].copy_from_slice(&MM_SHAPE.to_le_bytes());
    result[28..30].copy_from_slice(&1440_i16.to_le_bytes());
    result[30..32].copy_from_slice(&720_i16.to_le_bytes());
    result[32..34].copy_from_slice(&1000_u16.to_le_bytes());
    result[34..36].copy_from_slice(&1000_u16.to_le_bytes());
    result.extend_from_slice(&shape);
    result.extend_from_slice(file_block);
    let length = i32::try_from(result.len()).unwrap();
    result[0..4].copy_from_slice(&length.to_le_bytes());
    result
}

#[test]
fn parses_exact_anchored_png() {
    let data = picf_with(&png_blip());
    let mut records = 0;
    let picture = parse_picf(&data, 0, 7, DocLimits::default(), &mut records).unwrap();
    assert_eq!(picture.cp, 7);
    assert_eq!(picture.geometry.width_twips, 1440);
    assert_eq!(picture.images.len(), 1);
    assert_eq!(picture.images[0].format, BlipFormat::Png);
    assert!(picture.images[0].data.starts_with(b"\x89PNG"));
}

#[test]
fn parses_embedded_fbse_png() {
    let blip = png_blip();
    let mut payload = vec![0_u8; 36];
    payload[20..24].copy_from_slice(&u32::try_from(blip.len()).unwrap().to_le_bytes());
    payload.extend_from_slice(&blip);
    let fbse = record(2, 6, OFFICE_ART_FBSE, &payload);
    let data = picf_with(&fbse);
    let mut records = 0;
    let picture = parse_picf(&data, 0, 0, DocLimits::default(), &mut records).unwrap();
    assert_eq!(picture.images.len(), 1);
    assert_eq!(picture.images[0].format, BlipFormat::Png);
}

#[test]
fn rejects_blip_length_past_picf() {
    let mut blip = png_blip();
    blip[4..8].copy_from_slice(&u32::MAX.to_le_bytes());
    let data = picf_with(&blip);
    let mut records = 0;
    assert!(matches!(parse_picf(&data, 0, 0, DocLimits::default(), &mut records), Err(DocError::InvalidMedia(_))));
}

#[test]
fn rejects_false_png_signature() {
    let mut payload = vec![0_u8; 17];
    payload.extend_from_slice(b"not a png");
    let data = picf_with(&record(0, 0x6E0, 0xF01E, &payload));
    let mut records = 0;
    assert!(matches!(parse_picf(&data, 0, 0, DocLimits::default(), &mut records), Err(DocError::InvalidMedia(_))));
}

#[test]
fn validates_bounded_nil_picf_binary_data() {
    let mut data = vec![0_u8; NIL_PICF_HEADER_SIZE + 3];
    let data_length = i32::try_from(data.len()).unwrap();
    data[0..4].copy_from_slice(&data_length.to_le_bytes());
    data[4..6].copy_from_slice(&NIL_PICF_HEADER_SIZE_U32.to_le_bytes()[..2]);
    data[NIL_PICF_HEADER_SIZE..].copy_from_slice(b"bin");
    validate_nil_picf_and_bin_data(&data, 0).unwrap();

    data[6] = 1;
    assert!(matches!(validate_nil_picf_and_bin_data(&data, 0), Err(DocError::InvalidMedia(_))));
    data[6] = 0;
    let oversized_length = i32::try_from(data.len() + 1).unwrap();
    data[0..4].copy_from_slice(&oversized_length.to_le_bytes());
    assert!(matches!(validate_nil_picf_and_bin_data(&data, 0), Err(DocError::OutOfBounds { .. })));
}

#[test]
fn counts_every_office_art_record_and_records_offsets() {
    let data = picf_with(&png_blip());
    let mut records = 5;
    let picture = parse_picf(&data, 100, 3, DocLimits::default(), &mut records).err();
    // The header at offset 100 lies past the end of the data.
    assert!(matches!(picture, Some(DocError::OutOfBounds { .. })));
    let mut padded = vec![0_u8; 100];
    padded.extend_from_slice(&data);
    let picture = parse_picf(&padded, 100, 3, DocLimits::default(), &mut records).unwrap();
    // Shape container and one BLIP.
    assert_eq!(records, 7);
    assert_eq!(picture.data_offset, 100);
    assert_eq!(picture.record_length as usize, data.len());
    assert_eq!(picture.storage, PictureStorage::Shape);
    assert_eq!(picture.source_name, None);
    // The shape record is 8 bytes, so the BLIP record starts 8 bytes into the
    // OfficeArt data that follows the 68-byte header.
    assert_eq!(picture.images[0].source_offset, 100 + 68 + 8);
    assert_eq!(picture.office_art.len(), data.len() - PICF_HEADER_SIZE);
}

#[test]
fn enforces_the_office_art_record_limit() {
    let data = picf_with(&png_blip());
    let limits = DocLimits { max_office_art_records: 1, ..DocLimits::default() };
    let mut records = 0;
    assert!(matches!(
        parse_picf(&data, 0, 0, limits, &mut records),
        Err(DocError::ResourceLimit { resource: "office-art-record", .. })
    ));
}

#[test]
fn keeps_the_shape_file_name_and_marks_compressed_metafiles() {
    let mut payload = vec![0_u8; 50];
    payload[48] = 0x00;
    payload.extend_from_slice(b"wmf-bytes");
    let wmf = record(0, 0x216, 0xF01B, &payload);
    let mut data = picf_with(&wmf);
    data[6..8].copy_from_slice(&MM_SHAPEFILE.to_le_bytes());
    // Insert cchPicName and a two-byte name after the header.
    let tail = data.split_off(PICF_HEADER_SIZE);
    data.push(2);
    data.extend_from_slice(b"ab");
    data.extend_from_slice(&tail);
    let length = i32::try_from(data.len()).unwrap();
    data[0..4].copy_from_slice(&length.to_le_bytes());
    let mut records = 0;
    let picture = parse_picf(&data, 0, 0, DocLimits::default(), &mut records).unwrap();
    assert_eq!(picture.storage, PictureStorage::ShapeFile);
    assert_eq!(picture.source_name, Some(b"ab".to_vec()));
    assert_eq!(picture.images.len(), 1);
    assert_eq!(picture.images[0].format, BlipFormat::Wmf);
    assert!(picture.images[0].compressed);
    assert_eq!(picture.images[0].data, b"wmf-bytes".to_vec());
}

#[test]
fn rejects_non_blip_records_inside_fbse_and_unknown_file_blocks() {
    let inner = record(0, 0, 0xF00B, &[1, 2, 3]);
    let mut payload = vec![0_u8; 36];
    payload[20..24].copy_from_slice(&u32::try_from(inner.len()).unwrap().to_le_bytes());
    payload.extend_from_slice(&inner);
    let data = picf_with(&record(2, 6, OFFICE_ART_FBSE, &payload));
    let mut records = 0;
    assert!(matches!(parse_picf(&data, 0, 0, DocLimits::default(), &mut records), Err(DocError::InvalidMedia(_))));
    let data = picf_with(&record(0, 0, 0xF00B, &[1, 2, 3]));
    let mut records = 0;
    assert!(matches!(parse_picf(&data, 0, 0, DocLimits::default(), &mut records), Err(DocError::InvalidMedia(_))));
}

#[test]
fn accepts_jpeg_and_rejects_zero_scale() {
    let mut payload = vec![0_u8; 17];
    payload.extend_from_slice(&[0xFF, 0xD8, 0xFF, 0xE0]);
    let data = picf_with(&record(0, 0x46A, 0xF01D, &payload));
    let mut records = 0;
    let picture = parse_picf(&data, 0, 0, DocLimits::default(), &mut records).unwrap();
    assert_eq!(picture.images[0].format, BlipFormat::Jpeg);
    assert!(!picture.images[0].compressed);
    let mut data = data;
    data[32..34].copy_from_slice(&0_u16.to_le_bytes());
    let mut records = 0;
    assert!(matches!(parse_picf(&data, 0, 0, DocLimits::default(), &mut records), Err(DocError::InvalidMedia(_))));
}

#[test]
fn names_blip_formats() {
    assert_eq!(BlipFormat::Png.mime_type(), "image/png");
    assert_eq!(BlipFormat::Dib.mime_type(), "image/bmp");
    assert_eq!(BlipFormat::Emf.mime_type(), "image/x-emf");
    assert_eq!(BlipFormat::Jpeg.extension(), "jpg");
    assert_eq!(BlipFormat::Tiff.extension(), "tiff");
}

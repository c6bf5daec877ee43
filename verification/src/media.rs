//! Source-anchored PICF and `OfficeArt` image extraction.

use vstd::prelude::*;

use crate::binary::{checked_slice, le_i32, le_u16, le_u32, read_i32_le, read_u16_le, read_u32_le};
use crate::document::WordBinaryDocument;
use crate::error::{DocError, ErrorKind, Outcome, Result, message};
use crate::formatting::{SemanticCharacterRun, SemanticFormattingIndex, logical_outcome, runs_resolve, semantic_of};
use crate::limits::DocLimits;
use crate::properties::ToggleValue;

verus! {

/// Size of the fixed PICF header.
pub const PICF_HEADER_SIZE: usize = 68;

/// Size of the fixed PICF header, as stored in `cbHeader`.
pub const PICF_HEADER_SIZE_U32: u32 = 68;

/// Size of the fixed `NilPICFAndBinData` header.
pub const NIL_PICF_HEADER_SIZE: usize = 68;

/// Size of the fixed `NilPICFAndBinData` header, as stored in `cbHeader`.
pub const NIL_PICF_HEADER_SIZE_U32: u32 = 68;

/// `MFPF.mm` of a picture stored as an inline shape.
pub const MM_SHAPE: i16 = 0x0064;

/// `MFPF.mm` of a picture stored as a shape with a linked file name.
pub const MM_SHAPEFILE: i16 = 0x0066;

/// Record type of `OfficeArtSpContainer`.
pub const OFFICE_ART_SP_CONTAINER: u16 = 0xF004;

/// Record type of `OfficeArtFBSE`.
pub const OFFICE_ART_FBSE: u16 = 0xF007;

/// Storage variant declared by `PICF.mfpf.mm`.
#[derive(Debug, Clone, Copy, PartialEq, Eq, Structural)]
pub enum PictureStorage {
    Shape,
    ShapeFile,
}

/// PICMID dimensions and scaling retained in Word twips/tenths of a percent.
#[derive(Debug, Clone, Copy, PartialEq, Eq, Structural)]
pub struct PictureGeometry {
    pub width_twips: i16,
    pub height_twips: i16,
    pub scale_x_tenths_percent: u16,
    pub scale_y_tenths_percent: u16,
}

/// Image format identified by an exact `OfficeArt` BLIP record type.
#[derive(Debug, Clone, Copy, PartialEq, Eq, Structural)]
pub enum BlipFormat {
    Emf,
    Wmf,
    Pict,
    Jpeg,
    Png,
    Dib,
    Tiff,
}

/// MIME type of a BLIP format.
pub open spec fn mime_type_of(f: BlipFormat) -> Seq<char> {
    match f {
        BlipFormat::Emf => "image/x-emf"@,
        BlipFormat::Wmf => "image/x-wmf"@,
        BlipFormat::Pict => "image/x-pict"@,
        BlipFormat::Jpeg => "image/jpeg"@,
        BlipFormat::Png => "image/png"@,
        BlipFormat::Dib => "image/bmp"@,
        BlipFormat::Tiff => "image/tiff"@,
    }
}

/// File extension of a BLIP format.
pub open spec fn extension_of(f: BlipFormat) -> Seq<char> {
    match f {
        BlipFormat::Emf => "emf"@,
        BlipFormat::Wmf => "wmf"@,
        BlipFormat::Pict => "pict"@,
        BlipFormat::Jpeg => "jpg"@,
        BlipFormat::Png => "png"@,
        BlipFormat::Dib => "dib"@,
        BlipFormat::Tiff => "tiff"@,
    }
}

impl BlipFormat {
    /// MIME type of the format.
    pub fn mime_type(self) -> (res: &'static str)
        ensures
            res@ == mime_type_of(self),
    {
        match self {
            BlipFormat::Emf => "image/x-emf",
            BlipFormat::Wmf => "image/x-wmf",
            BlipFormat::Pict => "image/x-pict",
            BlipFormat::Jpeg => "image/jpeg",
            BlipFormat::Png => "image/png",
            BlipFormat::Dib => "image/bmp",
            BlipFormat::Tiff => "image/tiff",
        }
    }

    /// File extension of the format.
    pub fn extension(self) -> (res: &'static str)
        ensures
            res@ == extension_of(self),
    {
        match self {
            BlipFormat::Emf => "emf",
            BlipFormat::Wmf => "wmf",
            BlipFormat::Pict => "pict",
            BlipFormat::Jpeg => "jpg",
            BlipFormat::Png => "png",
            BlipFormat::Dib => "dib",
            BlipFormat::Tiff => "tiff",
        }
    }
}

/// One exactly bounded BLIP payload found under an inline picture record.
#[derive(Debug, Clone, PartialEq, Eq)]
pub struct BlipImage {
    pub format: BlipFormat,
    pub record_type: u16,
    /// Absolute byte offset of the `OfficeArt` record in the DOC Data stream.
    pub source_offset: u32,
    /// True for compressed EMF/WMF/PICT payloads.
    pub compressed: bool,
    pub data: Vec<u8>,
}

/// One inline picture proven by its text anchor and character properties.
#[derive(Debug, Clone, PartialEq, Eq)]
pub struct InlinePicture {
    /// Global CP of the U+0001 picture character.
    pub cp: u32,
    /// Absolute Data-stream offset supplied by `sprmCPicLocation`.
    pub data_offset: u32,
    /// PICF `lcb`, including the 68-byte header and `OfficeArt` data.
    pub record_length: u32,
    pub storage: PictureStorage,
    pub geometry: PictureGeometry,
    /// ANSI source name retained as bytes because its code page is external.
    pub source_name: Option<Vec<u8>>,
    /// Exact `OfficeArtInlineSpContainer` bytes for later shape serialization.
    pub office_art: Vec<u8>,
    pub images: Vec<BlipImage>,
}

/// The content of a BLIP image.
pub struct BlipSpec {
    pub format: BlipFormat,
    pub record_type: u16,
    pub source_offset: u32,
    pub compressed: bool,
    pub data: Seq<u8>,
}

/// The content of an inline picture, apart from its anchor CP.
pub struct PictureSpec {
    pub data_offset: u32,
    pub record_length: u32,
    pub storage: PictureStorage,
    pub geometry: PictureGeometry,
    pub source_name: Option<Seq<u8>>,
    pub office_art: Seq<u8>,
    pub images: Seq<BlipSpec>,
}

impl BlipImage {
    /// The content of this image.
    pub open spec fn spec_of(self) -> BlipSpec {
        BlipSpec {
            format: self.format,
            record_type: self.record_type,
            source_offset: self.source_offset,
            compressed: self.compressed,
            data: self.data@,
        }
    }
}

/// The contents of `images`.
pub open spec fn images_spec(images: Seq<BlipImage>) -> Seq<BlipSpec> {
    images.map_values(|b: BlipImage| b.spec_of())
}

impl InlinePicture {
    /// The content of this picture, apart from its anchor CP.
    pub open spec fn spec_of(self) -> PictureSpec {
        PictureSpec {
            data_offset: self.data_offset,
            record_length: self.record_length,
            storage: self.storage,
            geometry: self.geometry,
            source_name: match self.source_name {
                Some(n) => Some(n@),
                None => None,
            },
            office_art: self.office_art@,
            images: images_spec(self.images@),
        }
    }
}

/// Header fields and payload of one `OfficeArt` record.
pub struct RecordSpec {
    pub version: int,
    pub instance: int,
    pub record_type: int,
    pub source_offset: u32,
    pub payload_offset: u32,
    pub payload: Seq<u8>,
}

/// The `OfficeArt` record at byte `pos` of `c`, whose first byte has absolute
/// offset `base`; `None` when its header or payload does not fit, its type
/// is below `0xF000`, or its offsets leave the `u32` range.
#[verifier::opaque]
pub open spec fn record_frame(c: Seq<u8>, pos: int, base: int) -> Option<RecordSpec> {
    let vi = le_u16(c, pos);
    let t = le_u16(c, pos + 2);
    let len = le_u32(c, pos + 4);
    if pos < 0 || pos + 8 > c.len() || t < 0xF000 || pos + 8 + len > c.len() || base + pos + 8 > u32::MAX {
        None
    } else {
        Some(
            RecordSpec {
                version: (vi % 16) as int,
                instance: (vi / 16) as int,
                record_type: t as int,
                source_offset: (base + pos) as u32,
                payload_offset: (base + pos + 8) as u32,
                payload: c.subrange(pos + 8, pos + 8 + len),
            },
        )
    }
}

/// A record lies within its container and its payload is shorter than it.
pub proof fn lemma_record_frame_bounds(c: Seq<u8>, pos: int, base: int)
    ensures
        record_frame(c, pos, base) matches Some(r) ==> 0 <= pos && pos + 8 + r.payload.len() <= c.len(),
{
    reveal(record_frame);
}

/// Why the record counter, standing at `n`, cannot count one more record.
pub open spec fn count_failure(n: int, limits: DocLimits) -> Option<ErrorKind> {
    if n + 1 > usize::MAX {
        Some(ErrorKind::InvalidMedia)
    } else if n + 1 > limits.max_office_art_records {
        Some(ErrorKind::ResourceLimit)
    } else {
        None
    }
}

/// Validation of the records of container payload `c` at nesting `depth`,
/// the counter standing at `n`: the final count, or the failure kind.
pub open spec fn container_outcome(c: Seq<u8>, base: int, depth: int, limits: DocLimits, n: int) -> Outcome<int>
    decreases c.len(), c.len() + 1,
{
    if depth > limits.max_office_art_depth {
        Err(ErrorKind::ResourceLimit)
    } else {
        walk_outcome(c, base, depth, limits, 0, n)
    }
}

/// Validation of the records of `c` from byte `pos`; nested containers
/// (version `0xF`) are validated in turn.
pub open spec fn walk_outcome(c: Seq<u8>, base: int, depth: int, limits: DocLimits, pos: int, n: int) -> Outcome<int>
    decreases c.len(), c.len() - pos,
{
    if pos < 0 || pos >= c.len() {
        Ok(n)
    } else {
        match count_failure(n, limits) {
            Some(e) => Err(e),
            None => match record_frame(c, pos, base) {
                None => Err(ErrorKind::InvalidMedia),
                Some(r) => {
                    proof {
                        lemma_record_frame_bounds(c, pos, base);
                    }
                    let inner = if r.version == 15 {
                        container_outcome(r.payload, r.payload_offset as int, depth + 1, limits, n + 1)
                    } else {
                        Ok(n + 1)
                    };
                    match inner {
                        Err(e) => Err(e),
                        Ok(n2) => walk_outcome(c, base, depth, limits, pos + 8 + r.payload.len(), n2),
                    }
                },
            },
        }
    }
}

/// The image format of BLIP record type `t`.
pub open spec fn blip_format_of(t: int) -> Option<BlipFormat> {
    if t == 0xF01A {
        Some(BlipFormat::Emf)
    } else if t == 0xF01B {
        Some(BlipFormat::Wmf)
    } else if t == 0xF01C {
        Some(BlipFormat::Pict)
    } else if t == 0xF01D || t == 0xF02A {
        Some(BlipFormat::Jpeg)
    } else if t == 0xF01E {
        Some(BlipFormat::Png)
    } else if t == 0xF01F {
        Some(BlipFormat::Dib)
    } else if t == 0xF029 {
        Some(BlipFormat::Tiff)
    } else {
        None
    }
}

/// Whether a format is a metafile, whose data may be compressed.
pub open spec fn is_metafile(f: BlipFormat) -> bool {
    f == BlipFormat::Emf || f == BlipFormat::Wmf || f == BlipFormat::Pict
}

/// The header length before the file data of BLIP type `t` with record
/// instance `i`: one or two UIDs; `None` for an instance the type does not use.
pub open spec fn blip_prefix(t: int, i: int) -> Option<int> {
    if t == 0xF01A || t == 0xF01B || t == 0xF01C {
        let (one, two): (int, int) = if t == 0xF01A {
            (0x3D4, 0x3D5)
        } else if t == 0xF01B {
            (0x216, 0x217)
        } else {
            (0x542, 0x543)
        };
        if i == one {
            Some(50)
        } else if i == two {
            Some(66)
        } else {
            None
        }
    } else {
        let (one, two): (Seq<u16>, Seq<u16>) = if t == 0xF01D || t == 0xF02A {
            (seq![0x46Au16, 0x6E2], seq![0x46Bu16, 0x6E3])
        } else if t == 0xF01E {
            (seq![0x6E0u16], seq![0x6E1u16])
        } else if t == 0xF01F {
            (seq![0x7A8u16], seq![0x7A9u16])
        } else {
            (seq![0x6E4u16], seq![0x6E5u16])
        };
        if one.contains(i as u16) {
            Some(17)
        } else if two.contains(i as u16) {
            Some(33)
        } else {
            None
        }
    }
}

/// Whether `d` begins with the file signature of format `f`; metafile
/// signatures are left to the decompressing consumer.
#[verifier::opaque]
pub open spec fn signature_ok(f: BlipFormat, d: Seq<u8>) -> bool {
    match f {
        BlipFormat::Jpeg => d.len() >= 2 && d.take(2) == seq![0xFFu8, 0xD8],
        BlipFormat::Png => d.len() >= 8 && d.take(8) == seq![0x89u8, 0x50, 0x4E, 0x47, 0x0D, 0x0A, 0x1A, 0x0A],
        BlipFormat::Tiff => d.len() >= 4 && (d.take(4) == seq![0x49u8, 0x49, 0x2A, 0x00] || d.take(4) == seq![
            0x4Du8,
            0x4D,
            0x00,
            0x2A,
        ]),
        BlipFormat::Dib => d.len() >= 4 && {
            let size = le_u32(d, 0);
            size == 12 || size == 40 || size == 52 || size == 56 || size == 108 || size == 124
        },
        _ => true,
    }
}

/// The image of BLIP record `r`: `None` for a record type that is no BLIP.
#[verifier::opaque]
pub open spec fn blip_outcome(r: RecordSpec) -> Outcome<Option<BlipSpec>> {
    match blip_format_of(r.record_type) {
        None => Ok(None),
        Some(f) => if r.version != 0 {
            Err(ErrorKind::InvalidMedia)
        } else {
            match blip_prefix(r.record_type, r.instance) {
                None => Err(ErrorKind::InvalidMedia),
                Some(prefix) => if r.payload.len() <= prefix {
                    Err(ErrorKind::InvalidMedia)
                } else {
                    let data = r.payload.subrange(prefix, r.payload.len() as int);
                    if !signature_ok(f, data) {
                        Err(ErrorKind::InvalidMedia)
                    } else {
                        Ok(
                            Some(
                                BlipSpec {
                                    format: f,
                                    record_type: r.record_type as u16,
                                    source_offset: r.source_offset,
                                    compressed: is_metafile(f) && r.payload[prefix - 2] == 0,
                                    data,
                                },
                            ),
                        )
                    }
                },
            }
        },
    }
}

/// `acc` followed by the images of outcome `o`.
pub open spec fn prefixed(acc: Seq<BlipSpec>, o: Outcome<(Seq<BlipSpec>, int)>) -> Outcome<(Seq<BlipSpec>, int)> {
    match o {
        Ok((rest, n)) => Ok((acc + rest, n)),
        Err(e) => Err(e),
    }
}

/// The BLIPs embedded in an FBSE payload `p` from byte `pos`; every embedded
/// record must be a BLIP.
pub open spec fn embedded_outcome(p: Seq<u8>, base: int, limits: DocLimits, pos: int, n: int) -> Outcome<
    (Seq<BlipSpec>, int),
>
    decreases p.len() - pos,
{
    if pos < 0 || pos >= p.len() {
        Ok((seq![], n))
    } else {
        match count_failure(n, limits) {
            Some(e) => Err(e),
            None => match record_frame(p, pos, base) {
                None => Err(ErrorKind::InvalidMedia),
                Some(r) => {
                    proof {
                        lemma_record_frame_bounds(p, pos, base);
                    }
                    match blip_outcome(r) {
                    Err(e) => Err(e),
                    Ok(None) => Err(ErrorKind::InvalidMedia),
                        Ok(Some(b)) => prefixed(
                            seq![b],
                            embedded_outcome(p, base, limits, pos + 8 + r.payload.len(), n + 1),
                        ),
                    }
                },
            },
        }
    }
}

/// The BLIPs of `OfficeArtFBSE` record `r`.
#[verifier::opaque]
pub open spec fn fbse_outcome(r: RecordSpec, limits: DocLimits, n: int) -> Outcome<(Seq<BlipSpec>, int)> {
    let p = r.payload;
    if r.version != 2 || p.len() < 36 {
        Err(ErrorKind::InvalidMedia)
    } else {
        let size = le_u32(p, 20);
        let name = p[33];
        if name > 0xFE || name % 2 != 0 || 36 + name + size != p.len() {
            Err(ErrorKind::InvalidMedia)
        } else {
            embedded_outcome(p, r.payload_offset as int, limits, 36 + name, n)
        }
    }
}

/// The images of the file blocks of `c` from byte `pos`: FBSE records and
/// BLIPs; any other record type is rejected.
pub open spec fn blocks_outcome(c: Seq<u8>, base: int, limits: DocLimits, pos: int, n: int) -> Outcome<
    (Seq<BlipSpec>, int),
>
    decreases c.len() - pos,
{
    if pos < 0 || pos >= c.len() {
        Ok((seq![], n))
    } else {
        match count_failure(n, limits) {
            Some(e) => Err(e),
            None => match record_frame(c, pos, base) {
                None => Err(ErrorKind::InvalidMedia),
                Some(r) => {
                    proof {
                        lemma_record_frame_bounds(c, pos, base);
                    }
                    let step: Outcome<(Seq<BlipSpec>, int)> = if r.record_type == 0xF007 {
                        fbse_outcome(r, limits, n + 1)
                    } else if 0xF018 <= r.record_type <= 0xF117 {
                        match blip_outcome(r) {
                            Err(e) => Err(e),
                            Ok(Some(b)) => Ok((seq![b], n + 1)),
                            Ok(None) => Ok((seq![], n + 1)),
                        }
                    } else {
                        Err(ErrorKind::InvalidMedia)
                    };
                    match step {
                        Err(e) => Err(e),
                        Ok((imgs, n2)) => prefixed(imgs, blocks_outcome(c, base, limits, pos + 8 + r.payload.len(), n2)),
                    }
                },
            },
        }
    }
}

/// The images of an `OfficeArtInlineSpContainer` `c`: a shape container
/// followed by file blocks.
#[verifier::opaque]
pub open spec fn inline_outcome(c: Seq<u8>, base: int, limits: DocLimits, n: int) -> Outcome<(Seq<BlipSpec>, int)> {
    match count_failure(n, limits) {
        Some(e) => Err(e),
        None => match record_frame(c, 0, base) {
            None => Err(ErrorKind::InvalidMedia),
            Some(r) => if r.version != 15 || r.record_type != 0xF004 {
                Err(ErrorKind::InvalidMedia)
            } else {
                match container_outcome(r.payload, r.payload_offset as int, 1, limits, n + 1) {
                    Err(e) => Err(e),
                    Ok(n2) => blocks_outcome(c, base, limits, 8 + r.payload.len() as int, n2),
                }
            },
        },
    }
}

/// Whether the PICF geometry of `rec` is invalid: a nonpositive goal size or
/// a zero scale.
pub open spec fn geometry_failure(rec: Seq<u8>) -> bool {
    let w = le_u16(rec, 28);
    let h = le_u16(rec, 30);
    w == 0 || w >= 0x8000 || h == 0 || h >= 0x8000 || le_u16(rec, 32) == 0 || le_u16(rec, 34) == 0
}

/// The PICF geometry of `rec`.
pub open spec fn geometry_of(rec: Seq<u8>) -> PictureGeometry {
    PictureGeometry {
        width_twips: le_u16(rec, 28) as i16,
        height_twips: le_u16(rec, 30) as i16,
        scale_x_tenths_percent: le_u16(rec, 32),
        scale_y_tenths_percent: le_u16(rec, 34),
    }
}

/// The picture whose PICF starts at byte `off` of `data`, with the final
/// record count, or the failure kind.
pub open spec fn picf_outcome(data: Seq<u8>, off: u32, limits: DocLimits, n: int) -> Outcome<(PictureSpec, int)> {
    if off + 68 > data.len() {
        Err(ErrorKind::OutOfBounds)
    } else {
        let len = le_i32(data, off as int);
        if len < 68 {
            Err(ErrorKind::InvalidMedia)
        } else if off + len > data.len() {
            Err(ErrorKind::OutOfBounds)
        } else {
            let rec = data.subrange(off as int, off + len);
            let mm = le_u16(rec, 6);
            let shape_file = mm == 0x66;
            if le_u16(rec, 4) != 68 || (mm != 0x64 && mm != 0x66) || rec[66] != 0 || rec[67] != 0
                || geometry_failure(rec) {
                Err(ErrorKind::InvalidMedia)
            } else if shape_file && (rec.len() <= 68 || 69 + rec[68] > rec.len()) {
                Err(ErrorKind::InvalidMedia)
            } else {
                let start = if shape_file {
                    69 + rec[68]
                } else {
                    68
                };
                let art = rec.subrange(start, rec.len() as int);
                if art.len() == 0 || off + start > u32::MAX {
                    Err(ErrorKind::InvalidMedia)
                } else {
                    match inline_outcome(art, off + start, limits, n) {
                        Err(e) => Err(e),
                        Ok((imgs, n2)) => Ok(
                            (
                                PictureSpec {
                                    data_offset: off,
                                    record_length: len as u32,
                                    storage: if shape_file {
                                        PictureStorage::ShapeFile
                                    } else {
                                        PictureStorage::Shape
                                    },
                                    geometry: geometry_of(rec),
                                    source_name: if shape_file {
                                        Some(rec.subrange(69, start))
                                    } else {
                                        None
                                    },
                                    office_art: art,
                                    images: imgs,
                                },
                                n2,
                            ),
                        ),
                    }
                }
            }
        }
    }
}

/// Why the `NilPICFAndBinData` at byte `off` of `data` is invalid, if it is.
pub open spec fn nil_picf_failure(data: Seq<u8>, off: u32) -> Option<ErrorKind> {
    if off + 68 > data.len() {
        Some(ErrorKind::OutOfBounds)
    } else {
        let len = le_i32(data, off as int);
        if len < 68 {
            Some(ErrorKind::InvalidMedia)
        } else if off + len > data.len() {
            Some(ErrorKind::OutOfBounds)
        } else if le_u16(data, off + 4) != 68 || exists|i: int| off + 6 <= i < off + 68 && data[i] != 0 {
            Some(ErrorKind::InvalidMedia)
        } else {
            None
        }
    }
}

/// A picture or `OfficeArt` error with a fixed message.
fn invalid_media(text: &str) -> (res: DocError)
    ensures
        res.kind() == ErrorKind::InvalidMedia,
{
    DocError::InvalidMedia(message(text))
}

/// A resource-limit error.
fn resource_limit(resource: &'static str, actual: usize, limit: usize) -> (res: DocError)
    ensures
        res.kind() == ErrorKind::ResourceLimit,
{
    DocError::ResourceLimit { resource, actual: actual as u64, limit: limit as u64 }
}

/// One `OfficeArt` record header with its exactly bounded payload.
#[derive(Clone, Copy)]
struct OfficeArtRecord<'a> {
    version: u8,
    instance: u16,
    record_type: u16,
    source_offset: u32,
    payload_offset: u32,
    payload: &'a [u8],
    total_length: usize,
}

/// The header fields and payload of an exec record.
spec fn record_spec(r: OfficeArtRecord) -> RecordSpec {
    RecordSpec {
        version: r.version as int,
        instance: r.instance as int,
        record_type: r.record_type as int,
        source_offset: r.source_offset,
        payload_offset: r.payload_offset,
        payload: r.payload@,
    }
}

/// Reads the record at `position` of `containing`, counting it first.
fn parse_record<'a>(
    containing: &'a [u8],
    position: usize,
    containing_offset: u32,
    limits: DocLimits,
    record_count: &mut usize,
) -> (res: Result<OfficeArtRecord<'a>>)
    ensures
        *final(record_count) >= *old(record_count),
        match count_failure(*old(record_count) as int, limits) {
            Some(e) => res is Err && res->Err_0.kind() == e,
            None => *final(record_count) == *old(record_count) + 1 && match record_frame(
                containing@,
                position as int,
                containing_offset as int,
            ) {
                None => res is Err && res->Err_0.kind() == ErrorKind::InvalidMedia,
                Some(rs) => res matches Ok(r) && record_spec(r) == rs && r.total_length == 8 + rs.payload.len(),
            },
        },
        res matches Ok(r) ==> position + r.total_length <= containing@.len() && r.payload@.len() + 8 == r.total_length,
{
    reveal(record_frame);
    if *record_count == usize::MAX {
        return Err(invalid_media("OfficeArt record count overflow"));
    }
    *record_count = *record_count + 1;
    if *record_count > limits.max_office_art_records {
        return Err(resource_limit("office-art-record", *record_count, limits.max_office_art_records));
    }
    let len = containing.len();
    if position > len || len - position < 8 {
        return Err(invalid_media("OfficeArt record has a truncated header"));
    }
    let version_instance = read_u16_le(containing, position);
    let record_type = read_u16_le(containing, position + 2);
    if record_type < 0xF000 {
        return Err(invalid_media("OfficeArt record has an invalid type"));
    }
    let payload_length = read_u32_le(containing, position + 4) as usize;
    if payload_length > len - position - 8 {
        return Err(invalid_media("OfficeArt record declares payload bytes beyond its container"));
    }
    if position > 0xFFFF_FFFF || containing_offset as u64 + position as u64 + 8 > 0xFFFF_FFFF {
        return Err(invalid_media("OfficeArt source offset overflow"));
    }
    let source_offset = containing_offset + position as u32;
    let payload = &containing[position + 8..position + 8 + payload_length];
    Ok(
        OfficeArtRecord {
            version: (version_instance % 16) as u8,
            instance: version_instance / 16,
            record_type,
            source_offset,
            payload_offset: source_offset + 8,
            payload,
            total_length: 8 + payload_length,
        },
    )
}

/// Validates the records of container payload `data` at nesting `depth`.
fn validate_container(
    data: &[u8],
    source_offset: u32,
    depth: usize,
    limits: DocLimits,
    record_count: &mut usize,
) -> (res: Result<()>)
    requires
        depth + data@.len() / 8 < usize::MAX,
    ensures
        *final(record_count) >= *old(record_count),
        match container_outcome(data@, source_offset as int, depth as int, limits, *old(record_count) as int) {
            Ok(n) => res is Ok && *final(record_count) == n,
            Err(e) => res is Err && res->Err_0.kind() == e,
        },
    decreases data@.len(),
{
    if depth > limits.max_office_art_depth {
        return Err(resource_limit("office-art-depth", depth, limits.max_office_art_depth));
    }
    let ghost n0 = *record_count as int;
    let ghost c = data@;
    let len = data.len();
    let mut position: usize = 0;
    while position < len
        invariant
            c == data@,
            len == c.len(),
            depth <= limits.max_office_art_depth,
            depth + c.len() / 8 < usize::MAX,
            position <= len,
            n0 == *old(record_count),
            *record_count >= n0,
            walk_outcome(c, source_offset as int, depth as int, limits, 0, n0) == walk_outcome(
                c,
                source_offset as int,
                depth as int,
                limits,
                position as int,
                *record_count as int,
            ),
        decreases len - position,
    {
        let record = parse_record(data, position, source_offset, limits, record_count)?;
        if record.version == 0xF {
            validate_container(record.payload, record.payload_offset, depth + 1, limits, record_count)?;
        }
        position = position + record.total_length;
    }
    Ok(())
}

/// Whether `values` contains `value`.
fn contains_u16(values: &[u16], value: u16) -> (res: bool)
    ensures
        res == values@.contains(value),
{
    let mut k: usize = 0;
    while k < values.len()
        invariant
            k <= values@.len(),
            forall|j: int| 0 <= j < k ==> values@[j] != value,
        decreases values@.len() - k,
    {
        if values[k] == value {
            assert(values@[k as int] == value);
            return true;
        }
        k = k + 1;
    }
    false
}

/// Rejects a BLIP whose record version is not an atom.
fn require_atom(record: &OfficeArtRecord) -> (res: Result<()>)
    ensures
        record.version == 0 ==> res is Ok,
        record.version != 0 ==> res is Err && res->Err_0.kind() == ErrorKind::InvalidMedia,
{
    if record.version == 0 {
        Ok(())
    } else {
        Err(invalid_media("BLIP has a record version other than 0"))
    }
}

/// The header length of a raster BLIP whose one-UID and two-UID instances
/// are given.
fn raster_prefix(record: &OfficeArtRecord, one_uid_instances: &[u16], two_uid_instances: &[u16]) -> (res: Result<
    usize,
>)
    ensures
        record.version != 0 ==> res is Err && res->Err_0.kind() == ErrorKind::InvalidMedia,
        record.version == 0 ==> {
            let prefix: int = if one_uid_instances@.contains(record.instance) {
                17
            } else if two_uid_instances@.contains(record.instance) {
                33
            } else {
                0
            };
            if prefix == 0 || record.payload@.len() <= prefix {
                res is Err && res->Err_0.kind() == ErrorKind::InvalidMedia
            } else {
                res == Ok::<usize, DocError>(prefix as usize)
            }
        },
{
    require_atom(record)?;
    let prefix = if contains_u16(one_uid_instances, record.instance) {
        17
    } else if contains_u16(two_uid_instances, record.instance) {
        33
    } else {
        return Err(invalid_media("BLIP has an invalid record instance"));
    };
    if record.payload.len() <= prefix {
        return Err(invalid_media("BLIP is truncated"));
    }
    Ok(prefix)
}

/// The header length of a metafile BLIP whose one-UID and two-UID instances
/// are given.
fn metafile_prefix(record: &OfficeArtRecord, one_uid_instance: u16, two_uid_instance: u16) -> (res: Result<usize>)
    ensures
        record.version != 0 ==> res is Err && res->Err_0.kind() == ErrorKind::InvalidMedia,
        record.version == 0 ==> {
            let prefix: int = if record.instance == one_uid_instance {
                50
            } else if record.instance == two_uid_instance {
                66
            } else {
                0
            };
            if prefix == 0 || record.payload@.len() <= prefix {
                res is Err && res->Err_0.kind() == ErrorKind::InvalidMedia
            } else {
                res == Ok::<usize, DocError>(prefix as usize)
            }
        },
{
    require_atom(record)?;
    let prefix = if record.instance == one_uid_instance {
        50
    } else if record.instance == two_uid_instance {
        66
    } else {
        return Err(invalid_media("metafile BLIP has an invalid record instance"));
    };
    if record.payload.len() <= prefix {
        return Err(invalid_media("metafile BLIP is truncated"));
    }
    Ok(prefix)
}

/// Whether `data` starts with `prefix`.
fn starts_with(data: &[u8], prefix: &[u8]) -> (res: bool)
    ensures
        res == (data@.len() >= prefix@.len() && data@.take(prefix@.len() as int) == prefix@),
{
    if data.len() < prefix.len() {
        return false;
    }
    let mut k: usize = 0;
    while k < prefix.len()
        invariant
            data@.len() >= prefix@.len(),
            k <= prefix@.len(),
            forall|j: int| 0 <= j < k ==> data@[j] == prefix@[j],
        decreases prefix@.len() - k,
    {
        if data[k] != prefix[k] {
            assert(data@.take(prefix@.len() as int)[k as int] != prefix@[k as int]);
            return false;
        }
        k = k + 1;
    }
    assert(data@.take(prefix@.len() as int) =~= prefix@);
    true
}

/// Rejects image data without the file signature of its format.
fn validate_signature(format: BlipFormat, data: &[u8], source_offset: u32) -> (res: Result<()>)
    ensures
        signature_ok(format, data@) ==> res is Ok,
        !signature_ok(format, data@) ==> res is Err && res->Err_0.kind() == ErrorKind::InvalidMedia,
{
    reveal(signature_ok);
    let valid = match format {
        BlipFormat::Jpeg => {
            let sig = vec![0xFFu8, 0xD8];
            assert(sig@ =~= seq![0xFFu8, 0xD8]);
            starts_with(data, sig.as_slice())
        },
        BlipFormat::Png => {
            let sig = vec![0x89u8, 0x50, 0x4E, 0x47, 0x0D, 0x0A, 0x1A, 0x0A];
            assert(sig@ =~= seq![0x89u8, 0x50, 0x4E, 0x47, 0x0D, 0x0A, 0x1A, 0x0A]);
            starts_with(data, sig.as_slice())
        },
        BlipFormat::Tiff => {
            let le = vec![0x49u8, 0x49, 0x2A, 0x00];
            let be = vec![0x4Du8, 0x4D, 0x00, 0x2A];
            assert(le@ =~= seq![0x49u8, 0x49, 0x2A, 0x00]);
            assert(be@ =~= seq![0x4Du8, 0x4D, 0x00, 0x2A]);
            starts_with(data, le.as_slice()) || starts_with(data, be.as_slice())
        },
        BlipFormat::Dib => if data.len() >= 4 {
            let size = read_u32_le(data, 0);
            size == 12 || size == 40 || size == 52 || size == 56 || size == 108 || size == 124
        } else {
            false
        },
        _ => true,
    };
    if valid {
        Ok(())
    } else {
        Err(invalid_media("BLIP has an invalid file signature"))
    }
}

/// Parses one BLIP record; `None` for a record type that is no BLIP.
fn parse_blip(record: &OfficeArtRecord) -> (res: Result<Option<BlipImage>>)
    ensures
        match blip_outcome(record_spec(*record)) {
            Ok(None) => res matches Ok(None),
            Ok(Some(b)) => res matches Ok(Some(img)) && img.spec_of() == b,
            Err(e) => res is Err && res->Err_0.kind() == e,
        },
{
    reveal(blip_outcome);
    let t = record.record_type;
    let (format, prefix_length, compressed) = if t == 0xF01A {
        (BlipFormat::Emf, metafile_prefix(record, 0x3D4, 0x3D5)?, true)
    } else if t == 0xF01B {
        (BlipFormat::Wmf, metafile_prefix(record, 0x216, 0x217)?, true)
    } else if t == 0xF01C {
        (BlipFormat::Pict, metafile_prefix(record, 0x542, 0x543)?, true)
    } else if t == 0xF01D || t == 0xF02A {
        let one = vec![0x46A, 0x6E2];
        let two = vec![0x46B, 0x6E3];
        assert(one@ =~= seq![0x46Au16, 0x6E2]);
        assert(two@ =~= seq![0x46Bu16, 0x6E3]);
        (BlipFormat::Jpeg, raster_prefix(record, one.as_slice(), two.as_slice())?, false)
    } else if t == 0xF01E {
        let one = vec![0x6E0];
        let two = vec![0x6E1];
        assert(one@ =~= seq![0x6E0u16]);
        assert(two@ =~= seq![0x6E1u16]);
        (BlipFormat::Png, raster_prefix(record, one.as_slice(), two.as_slice())?, false)
    } else if t == 0xF01F {
        let one = vec![0x7A8];
        let two = vec![0x7A9];
        assert(one@ =~= seq![0x7A8u16]);
        assert(two@ =~= seq![0x7A9u16]);
        (BlipFormat::Dib, raster_prefix(record, one.as_slice(), two.as_slice())?, false)
    } else if t == 0xF029 {
        let one = vec![0x6E4];
        let two = vec![0x6E5];
        assert(one@ =~= seq![0x6E4u16]);
        assert(two@ =~= seq![0x6E5u16]);
        (BlipFormat::Tiff, raster_prefix(record, one.as_slice(), two.as_slice())?, false)
    } else {
        return Ok(None);
    };
    let payload = record.payload;
    let data = &payload[prefix_length..payload.len()];
    validate_signature(format, data, record.source_offset)?;
    let is_compressed = compressed && payload[prefix_length - 2] == 0x00;
    Ok(
        Some(
            BlipImage {
                format,
                record_type: record.record_type,
                source_offset: record.source_offset,
                compressed: is_compressed,
                data: vstd::slice::slice_to_vec(data),
            },
        ),
    )
}

/// `acc` followed by `b` and then `rest` is `acc` and `b` followed by `rest`.
proof fn lemma_prefixed_push(acc: Seq<BlipSpec>, b: BlipSpec, o: Outcome<(Seq<BlipSpec>, int)>)
    ensures
        prefixed(acc, prefixed(seq![b], o)) == prefixed(acc.push(b), o),
{
    match o {
        Ok((rest, n)) => {
            assert(acc + (seq![b] + rest) =~= acc.push(b) + rest);
        },
        Err(_) => {},
    }
}

/// `acc` followed by `imgs` and then `rest` is `acc + imgs` followed by `rest`.
proof fn lemma_prefixed_append(acc: Seq<BlipSpec>, imgs: Seq<BlipSpec>, o: Outcome<(Seq<BlipSpec>, int)>)
    ensures
        prefixed(acc, prefixed(imgs, o)) == prefixed(acc + imgs, o),
{
    match o {
        Ok((rest, n)) => {
            assert(acc + (imgs + rest) =~= (acc + imgs) + rest);
        },
        Err(_) => {},
    }
}

/// Pushing an image extends the contents by its content.
proof fn lemma_images_push(v: Seq<BlipImage>, b: BlipImage)
    ensures
        images_spec(v.push(b)) == images_spec(v).push(b.spec_of()),
{
    assert(images_spec(v.push(b)) =~= images_spec(v).push(b.spec_of()));
}

/// Parses the BLIPs embedded in an FBSE record, appending them to `images`.
fn parse_fbse(
    record: &OfficeArtRecord,
    limits: DocLimits,
    record_count: &mut usize,
    images: &mut Vec<BlipImage>,
) -> (res: Result<()>)
    ensures
        *final(record_count) >= *old(record_count),
        match fbse_outcome(record_spec(*record), limits, *old(record_count) as int) {
            Ok((imgs, n)) => res is Ok && *final(record_count) == n && images_spec(final(images)@) == images_spec(
                old(images)@,
            ) + imgs,
            Err(e) => res is Err && res->Err_0.kind() == e,
        },
{
    reveal(fbse_outcome);
    let payload = record.payload;
    let plen = payload.len();
    if record.version != 0x2 || plen < 36 {
        return Err(invalid_media("OfficeArtFBSE has an invalid version or length"));
    }
    let embedded_size = read_u32_le(payload, 20) as usize;
    let name_length = payload[33] as usize;
    if name_length > 0xFE || name_length % 2 != 0 {
        return Err(invalid_media("OfficeArtFBSE has an invalid cbName"));
    }
    let embedded_start = 36 + name_length;
    if embedded_size > plen || embedded_start != plen - embedded_size {
        return Err(invalid_media("OfficeArtFBSE declares a different embedded length than its payload"));
    }
    let ghost p = payload@;
    let ghost base = record.payload_offset as int;
    let ghost n0 = *record_count as int;
    let ghost start_images = images_spec(images@);
    let ghost mut acc: Seq<BlipSpec> = seq![];
    let mut position = embedded_start;
    while position < plen
        invariant
            p == payload@,
            plen == p.len(),
            base == record.payload_offset as int,
            position <= plen,
            n0 == *old(record_count),
            *record_count >= n0,
            start_images == images_spec(old(images)@),
            fbse_outcome(record_spec(*record), limits, n0) == embedded_outcome(p, base, limits, embedded_start as int, n0),
            images_spec(images@) == start_images + acc,
            embedded_outcome(p, base, limits, embedded_start as int, n0) == prefixed(
                acc,
                embedded_outcome(p, base, limits, position as int, *record_count as int),
            ),
        decreases plen - position,
    {
        let embedded = parse_record(payload, position, record.payload_offset, limits, record_count)?;
        match parse_blip(&embedded)? {
            Some(image) => {
                proof {
                    lemma_images_push(images@, image);
                    lemma_prefixed_push(
                        acc,
                        image.spec_of(),
                        embedded_outcome(p, base, limits, position + embedded.total_length, *record_count as int),
                    );
                    acc = acc.push(image.spec_of());
                }
                images.push(image);
                assert(images_spec(images@) =~= start_images + acc);
            },
            None => {
                return Err(invalid_media("OfficeArtFBSE embeds a non-BLIP record"));
            },
        }
        position = position + embedded.total_length;
    }
    assert(acc + seq![] =~= acc);
    Ok(())
}

/// Parses an `OfficeArtInlineSpContainer`: its shape container, then the
/// images of its file blocks.
fn parse_inline_office_art(data: &[u8], source_offset: u32, limits: DocLimits, record_count: &mut usize) -> (res:
    Result<Vec<BlipImage>>)
    ensures
        *final(record_count) >= *old(record_count),
        match inline_outcome(data@, source_offset as int, limits, *old(record_count) as int) {
            Ok((imgs, n)) => res matches Ok(v) && images_spec(v@) == imgs && *final(record_count) == n,
            Err(e) => res is Err && res->Err_0.kind() == e,
        },
{
    reveal(inline_outcome);
    let ghost n_start = *record_count as int;
    let shape = parse_record(data, 0, source_offset, limits, record_count)?;
    if shape.version != 0xF || shape.record_type != OFFICE_ART_SP_CONTAINER {
        return Err(invalid_media("OfficeArtInlineSpContainer does not begin with a shape container"));
    }
    let shape_length = shape.payload.len();
    validate_container(shape.payload, shape.payload_offset, 1, limits, record_count)?;
    let ghost c = data@;
    let ghost base = source_offset as int;
    let ghost n1 = *record_count as int;
    let ghost mut acc: Seq<BlipSpec> = seq![];
    let len = data.len();
    let mut images: Vec<BlipImage> = Vec::new();
    let mut position = shape.total_length;
    while position < len
        invariant
            c == data@,
            len == c.len(),
            base == source_offset as int,
            position <= len,
            n1 >= *old(record_count),
            n_start == *old(record_count),
            inline_outcome(c, base, limits, n_start) == blocks_outcome(c, base, limits, 8 + shape_length, n1),
            *record_count >= n1,
            images_spec(images@) == acc,
            blocks_outcome(c, base, limits, 8 + shape_length, n1) == prefixed(
                acc,
                blocks_outcome(c, base, limits, position as int, *record_count as int),
            ),
        decreases len - position,
    {
        let record = parse_record(data, position, source_offset, limits, record_count)?;
        let ghost n2 = *record_count as int;
        let ghost next = position + record.total_length;
        if record.record_type == OFFICE_ART_FBSE {
            let ghost before = images@;
            parse_fbse(&record, limits, record_count, &mut images)?;
            proof {
                let imgs = fbse_outcome(record_spec(record), limits, n2)->Ok_0.0;
                lemma_prefixed_append(acc, imgs, blocks_outcome(c, base, limits, next, *record_count as int));
                acc = acc + imgs;
            }
        } else if 0xF018 <= record.record_type && record.record_type <= 0xF117 {
            match parse_blip(&record)? {
                Some(image) => {
                    proof {
                        lemma_images_push(images@, image);
                        lemma_prefixed_append(
                            acc,
                            seq![image.spec_of()],
                            blocks_outcome(c, base, limits, next, *record_count as int),
                        );
                        assert(acc.push(image.spec_of()) =~= acc + seq![image.spec_of()]);
                        acc = acc.push(image.spec_of());
                    }
                    images.push(image);
                },
                None => {
                    proof {
                        lemma_prefixed_append(acc, seq![], blocks_outcome(c, base, limits, next, *record_count as int));
                        assert(acc + seq![] =~= acc);
                    }
                },
            }
        } else {
            return Err(invalid_media("unexpected OfficeArt file block type"));
        }
        position = position + record.total_length;
    }
    assert(acc + seq![] =~= acc);
    Ok(images)
}

/// Reads the PICMID goal size and scale of a PICF record.
fn parse_geometry(record: &[u8], data_offset: u32) -> (res: Result<PictureGeometry>)
    requires
        record@.len() >= 68,
    ensures
        geometry_failure(record@) ==> res is Err && res->Err_0.kind() == ErrorKind::InvalidMedia,
        !geometry_failure(record@) ==> res == Ok::<PictureGeometry, DocError>(geometry_of(record@)),
{
    let width = read_u16_le(record, 28);
    let height = read_u16_le(record, 30);
    let horizontal_scale = read_u16_le(record, 32);
    let vertical_scale = read_u16_le(record, 34);
    if width == 0 || width >= 0x8000 || height == 0 || height >= 0x8000 {
        return Err(invalid_media("PICF has a nonpositive goal size"));
    }
    if horizontal_scale == 0 || vertical_scale == 0 {
        return Err(invalid_media("PICF has a zero picture scale"));
    }
    Ok(
        PictureGeometry {
            width_twips: width as i16,
            height_twips: height as i16,
            scale_x_tenths_percent: horizontal_scale,
            scale_y_tenths_percent: vertical_scale,
        },
    )
}

/// Parses the PICF and `OfficeArt` data at `data_offset` of the Data stream
/// for the picture anchored at `cp`, counting `OfficeArt` records.
#[verifier::rlimit(50)]
pub fn parse_picf(data: &[u8], data_offset: u32, cp: u32, limits: DocLimits, record_count: &mut usize) -> (res:
    Result<InlinePicture>)
    ensures
        *final(record_count) >= *old(record_count),
        match picf_outcome(data@, data_offset, limits, *old(record_count) as int) {
            Ok((ps, n)) => res matches Ok(p) && p.cp == cp && p.spec_of() == ps && *final(record_count) == n,
            Err(e) => res is Err && res->Err_0.kind() == e,
        },
{
    let header = checked_slice(data, data_offset, PICF_HEADER_SIZE_U32, "PICF")?;
    let signed_length = read_i32_le(header, 0);
    assert(le_i32(header@, 0) == le_i32(data@, data_offset as int)) by {
        assert(header@[0] == data@[data_offset as int]);
        assert(header@[1] == data@[data_offset + 1]);
        assert(header@[2] == data@[data_offset + 2]);
        assert(header@[3] == data@[data_offset + 3]);
    }
    if signed_length < 0 {
        return Err(invalid_media("PICF has a negative lcb"));
    }
    let record_length = signed_length as u32;
    if record_length < PICF_HEADER_SIZE_U32 {
        return Err(invalid_media("PICF lcb is below the header size"));
    }
    let record = checked_slice(data, data_offset, record_length, "PICFAndOfficeArtData")?;
    let cb_header = read_u16_le(record, 4);
    if cb_header != 68 {
        return Err(invalid_media("PICF has an unexpected cbHeader"));
    }
    let mm = read_u16_le(record, 6);
    let storage = if mm == 0x64 {
        PictureStorage::Shape
    } else if mm == 0x66 {
        PictureStorage::ShapeFile
    } else {
        return Err(invalid_media("picture anchor references a PICF with unsupported MFPF.mm"));
    };
    if record[66] != 0 || record[67] != 0 {
        return Err(invalid_media("PICF has nonzero cProps"));
    }
    let geometry = parse_geometry(record, data_offset)?;
    let rlen = record.len();
    let (source_name, picture_start) = match storage {
        PictureStorage::ShapeFile => {
            if rlen <= 68 {
                return Err(invalid_media("shape-file PICF has no cchPicName"));
            }
            let name_length = record[68] as usize;
            let end = 69 + name_length;
            if end > rlen {
                return Err(invalid_media("shape-file name exceeds PICF lcb"));
            }
            (Some(vstd::slice::slice_to_vec(&record[69..end])), end)
        },
        PictureStorage::Shape => (None, 68),
    };
    let office_art = &record[picture_start..rlen];
    if office_art.len() == 0 {
        return Err(invalid_media("PICF has empty OfficeArt data"));
    }
    if data_offset as u64 + picture_start as u64 > 0xFFFF_FFFF {
        return Err(invalid_media("OfficeArt source offset overflow"));
    }
    let office_art_offset = data_offset + picture_start as u32;
    let images = parse_inline_office_art(office_art, office_art_offset, limits, record_count)?;
    Ok(
        InlinePicture {
            cp,
            data_offset,
            record_length,
            storage,
            geometry,
            source_name,
            office_art: vstd::slice::slice_to_vec(office_art),
            images,
        },
    )
}

/// Validates the `NilPICFAndBinData` header at `data_offset` of the Data
/// stream and that its declared record fits.
pub fn validate_nil_picf_and_bin_data(data: &[u8], data_offset: u32) -> (res: Result<()>)
    ensures
        match nil_picf_failure(data@, data_offset) {
            None => res is Ok,
            Some(e) => res is Err && res->Err_0.kind() == e,
        },
{
    let header = checked_slice(data, data_offset, NIL_PICF_HEADER_SIZE_U32, "NilPICFAndBinData")?;
    let signed_length = read_i32_le(header, 0);
    assert(le_i32(header@, 0) == le_i32(data@, data_offset as int)) by {
        assert(header@[0] == data@[data_offset as int]);
        assert(header@[1] == data@[data_offset + 1]);
        assert(header@[2] == data@[data_offset + 2]);
        assert(header@[3] == data@[data_offset + 3]);
    }
    if signed_length < 0 {
        return Err(invalid_media("NilPICFAndBinData has a negative lcb"));
    }
    let record_length = signed_length as u32;
    if record_length < NIL_PICF_HEADER_SIZE_U32 {
        return Err(invalid_media("NilPICFAndBinData lcb is below the header size"));
    }
    checked_slice(data, data_offset, record_length, "NilPICFAndBinData")?;
    let cb_header = read_u16_le(header, 4);
    assert(le_u16(header@, 4) == le_u16(data@, data_offset + 4)) by {
        assert(header@[4] == data@[data_offset + 4]);
        assert(header@[5] == data@[data_offset + 5]);
    }
    if cb_header != 68 {
        return Err(invalid_media("NilPICFAndBinData has an unexpected cbHeader"));
    }
    let mut k: usize = 6;
    while k < NIL_PICF_HEADER_SIZE
        invariant
            data_offset + 68 <= data@.len(),
            le_i32(data@, data_offset as int) >= 68,
            data_offset + le_i32(data@, data_offset as int) <= data@.len(),
            le_u16(data@, data_offset + 4) == 68,
            header@.len() == 68,
            header@ == data@.subrange(data_offset as int, data_offset + 68),
            6 <= k <= 68,
            forall|i: int| data_offset + 6 <= i < data_offset + k ==> data@[i] == 0,
        decreases 68 - k,
    {
        if header[k] != 0 {
            assert(data@[data_offset + k] != 0);
            assert(exists|i: int| data_offset + 6 <= i < data_offset + 68 && data@[i] != 0);
            return Err(invalid_media("NilPICFAndBinData has nonzero ignored header bytes"));
        }
        k = k + 1;
    }
    Ok(())
}

/// All source-proven inline pictures in global CP order.
#[derive(Debug, Clone, PartialEq, Eq)]
pub struct MediaCollection {
    pictures: Vec<InlinePicture>,
}

impl Default for MediaCollection {
    fn default() -> (res: Self)
        ensures
            res.spec_pictures().len() == 0,
    {
        MediaCollection { pictures: Vec::new() }
    }
}

/// Progress of the picture scan: the anchored pictures in run order, the
/// retained bytes, and the `OfficeArt` records counted.
pub struct MediaState {
    pub pictures: Seq<(u32, PictureSpec)>,
    pub retained: int,
    pub records: int,
}

/// The number of U+0001 picture characters among the first `k` units of `u`,
/// and the index of the last one (`-1` when there is none).
pub open spec fn anchor_scan(u: Seq<u16>, k: int) -> (int, int)
    decreases k,
{
    if k <= 0 {
        (0, -1)
    } else {
        let (c, l) = anchor_scan(u, k - 1);
        if u[k - 1] == 1 {
            (c + 1, k - 1)
        } else {
            (c, l)
        }
    }
}

/// Total size of the data of `imgs`.
pub open spec fn image_bytes(imgs: Seq<BlipSpec>) -> int
    decreases imgs.len(),
{
    if imgs.len() == 0 {
        0
    } else {
        image_bytes(imgs.drop_last()) + imgs.last().data.len()
    }
}

/// One character run's contribution to the picture scan.
pub open spec fn media_step(doc: WordBinaryDocument, run: SemanticCharacterRun, limits: DocLimits, st: MediaState) -> Outcome<
    MediaState,
> {
    let a = run.source.cp_start;
    let b = run.source.cp_end;
    match run.properties.picture_location {
        None => Ok(st),
        Some(off) => match doc.spec_decode(a, b) {
            Err(e) => Err(e),
            Ok(u) => {
                let (count, index) = anchor_scan(u, u.len() as int);
                if count == 0 {
                    Ok(st)
                } else if count != 1 || run.properties.special != Some(ToggleValue::On) || a + index > u32::MAX {
                    Err(ErrorKind::InvalidMedia)
                } else if run.properties.binary_data == Some(true) {
                    if b != (if a == u32::MAX {
                        a as int
                    } else {
                        a + 1
                    }) || doc.spec_data() is None {
                        Err(ErrorKind::InvalidMedia)
                    } else {
                        match nil_picf_failure(doc.spec_data().unwrap(), off) {
                            Some(e) => Err(e),
                            None => Ok(st),
                        }
                    }
                } else if st.pictures.len() >= limits.max_media_items {
                    Err(ErrorKind::ResourceLimit)
                } else if doc.spec_data() is None {
                    Err(ErrorKind::InvalidMedia)
                } else {
                    match picf_outcome(doc.spec_data().unwrap(), off, limits, st.records) {
                        Err(e) => Err(e),
                        Ok((p, n)) => {
                            let total = st.retained + p.office_art.len() + image_bytes(p.images);
                            if total > usize::MAX {
                                Err(ErrorKind::InvalidMedia)
                            } else if total > limits.max_media_bytes {
                                Err(ErrorKind::ResourceLimit)
                            } else {
                                Ok(MediaState { pictures: st.pictures.push(((a + index) as u32, p)), retained: total, records: n })
                            }
                        },
                    }
                }
            },
        },
    }
}

/// The picture scan over the first `k` character runs.
pub open spec fn media_fold(doc: WordBinaryDocument, runs: Seq<SemanticCharacterRun>, limits: DocLimits, k: int) -> Outcome<
    MediaState,
>
    decreases k,
{
    if k <= 0 {
        Ok(MediaState { pictures: seq![], retained: 0, records: 0 })
    } else {
        match media_fold(doc, runs, limits, k - 1) {
            Err(e) => Err(e),
            Ok(st) => media_step(doc, runs[k - 1], limits, st),
        }
    }
}

/// Whether two entries of `s` are equal.
pub open spec fn has_duplicate(s: Seq<u32>) -> bool {
    exists|i: int, j: int| 0 <= i < j < s.len() && s[i] == s[j]
}

/// The anchor CPs of scanned pictures, in scan order.
pub open spec fn anchor_cps(ps: Seq<(u32, PictureSpec)>) -> Seq<u32> {
    ps.map_values(|p: (u32, PictureSpec)| p.0)
}

/// A picture's anchor CP and content.
pub open spec fn picture_key(p: InlinePicture) -> (u32, PictureSpec) {
    (p.cp, p.spec_of())
}

/// The anchor CPs and contents of `v`.
pub open spec fn picture_keys(v: Seq<InlinePicture>) -> Seq<(u32, PictureSpec)> {
    v.map_values(|p: InlinePicture| picture_key(p))
}

/// Whether `v` is in CP order.
pub open spec fn pictures_sorted(v: Seq<InlinePicture>) -> bool {
    forall|i: int, j: int| 0 <= i < j < v.len() ==> (#[trigger] v[i]).cp <= (#[trigger] v[j]).cp
}

/// What `MediaCollection::from_runs` gives for character runs `runs`: the
/// scanned pictures reordered by CP, unless two share a CP.
pub open spec fn media_result(doc: WordBinaryDocument, runs: Seq<SemanticCharacterRun>, limits: DocLimits, res: Result<
    MediaCollection,
>) -> bool {
    match media_fold(doc, runs, limits, runs.len() as int) {
        Err(e) => res is Err && res->Err_0.kind() == e,
        Ok(st) => if has_duplicate(anchor_cps(st.pictures)) {
            res is Err && res->Err_0.kind() == ErrorKind::InvalidMedia
        } else {
            res matches Ok(m) && picture_keys(m.spec_pictures()).to_multiset() == st.pictures.to_multiset()
                && pictures_sorted(m.spec_pictures())
        },
    }
}

/// What `MediaCollection::parse` gives for `doc`: the failure of its
/// formatting, or what `from_runs` gives for its resolved character runs.
pub open spec fn media_collection_result(doc: WordBinaryDocument, limits: DocLimits, res: Result<MediaCollection>) -> bool {
    match logical_outcome(
        doc.spec_fib(),
        doc.spec_word().subrange(0, doc.spec_fib().word_document_length as int),
        doc.spec_table(),
        limits,
        doc.spec_piece_table().spec_pieces(),
    ) {
        Err(e) => res is Err && res->Err_0.kind() == e,
        Ok(l) => if runs_resolve(l, doc.spec_piece_table()) {
            exists|idx: SemanticFormattingIndex|
                semantic_of(Ok(idx), l, doc.spec_piece_table()) && media_result(
                    doc,
                    #[trigger] idx.character_runs@,
                    limits,
                    res,
                )
        } else {
            res is Err && (res->Err_0.kind() == ErrorKind::InvalidPieceTable || res->Err_0.kind()
                == ErrorKind::InvalidFormatting)
        },
    }
}

/// Once the scan has failed, later runs keep the failure.
proof fn lemma_media_fold_failed(doc: WordBinaryDocument, runs: Seq<SemanticCharacterRun>, limits: DocLimits, k: int, j: int)
    requires
        0 <= k <= j,
        media_fold(doc, runs, limits, k) is Err,
    ensures
        media_fold(doc, runs, limits, j) == media_fold(doc, runs, limits, k),
    decreases j - k,
{
    if j > k {
        lemma_media_fold_failed(doc, runs, limits, k, j - 1);
    }
}

/// Image bytes are never negative.
proof fn lemma_image_bytes_nonneg(s: Seq<BlipSpec>)
    ensures
        image_bytes(s) >= 0,
    decreases s.len(),
{
    if s.len() > 0 {
        lemma_image_bytes_nonneg(s.drop_last());
    }
}

/// The bytes of a prefix of the images are at most those of all of them.
proof fn lemma_image_bytes_prefix(s: Seq<BlipSpec>, i: int)
    requires
        0 <= i <= s.len(),
    ensures
        image_bytes(s.take(i)) <= image_bytes(s),
    decreases s.len(),
{
    if i < s.len() {
        lemma_image_bytes_prefix(s.drop_last(), i);
        assert(s.drop_last().take(i) =~= s.take(i));
    } else {
        assert(s.take(i) =~= s);
    }
}

/// Appending a duplicate-free CP keeps the sequence duplicate-free exactly
/// when the CP is new.
proof fn lemma_duplicate_push(s: Seq<u32>, c: u32)
    ensures
        has_duplicate(s.push(c)) == (has_duplicate(s) || s.contains(c)),
{
    let t = s.push(c);
    if has_duplicate(t) && !has_duplicate(s) {
        let (i, j) = choose|i: int, j: int| 0 <= i < j < t.len() && t[i] == t[j];
        assert(j == s.len());
        assert(s[i] == c);
    }
    if s.contains(c) {
        let i = choose|i: int| 0 <= i < s.len() && s[i] == c;
        assert(t[i] == t[s.len() as int]);
    }
    if has_duplicate(s) {
        let (i, j) = choose|i: int, j: int| 0 <= i < j < s.len() && s[i] == s[j];
        assert(t[i] == t[j]);
    }
}

/// Whether `values` contains `value`.
fn contains_u32(values: &[u32], value: u32) -> (res: bool)
    ensures
        res == values@.contains(value),
{
    let mut k: usize = 0;
    while k < values.len()
        invariant
            k <= values@.len(),
            forall|j: int| 0 <= j < k ==> values@[j] != value,
        decreases values@.len() - k,
    {
        if values[k] == value {
            assert(values@[k as int] == value);
            return true;
        }
        k = k + 1;
    }
    false
}

/// The bytes a picture retains: its `OfficeArt` data and image payloads;
/// `None` when the count leaves the `usize` range.
fn picture_bytes(picture: &InlinePicture) -> (res: Option<usize>)
    ensures
        res matches Some(b) ==> b == picture.office_art@.len() + image_bytes(images_spec(picture.images@)),
        res is None ==> picture.office_art@.len() + image_bytes(images_spec(picture.images@)) > usize::MAX,
{
    let ghost all = images_spec(picture.images@);
    let images = &picture.images;
    let mut total = picture.office_art.len();
    let mut k: usize = 0;
    proof {
        assert(all.take(0) =~= seq![]);
    }
    while k < images.len()
        invariant
            images@ == picture.images@,
            all == images_spec(images@),
            k <= images@.len(),
            total == picture.office_art@.len() + image_bytes(all.take(k as int)),
        decreases images@.len() - k,
    {
        let len = images[k].data.len();
        proof {
            assert(all.take(k as int + 1).drop_last() =~= all.take(k as int));
            assert(all.take(k as int + 1).last() == all[k as int]);
            assert(all[k as int].data.len() == len);
        }
        if len > usize::MAX - total {
            proof {
                lemma_image_bytes_prefix(all, k as int + 1);
                let t = all.take(k as int + 1);
                assert(image_bytes(t) == image_bytes(t.drop_last()) + t.last().data.len());
                assert(image_bytes(t) == image_bytes(all.take(k as int)) + len);
                assert(picture.office_art@.len() + image_bytes(all) > usize::MAX);
            }
            return None;
        }
        total = total + len;
        k = k + 1;
    }
    assert(all.take(k as int) =~= all);
    Some(total)
}

/// The index of the last U+0001 picture character in `units` and their count.
fn scan_anchors(units: &[u16]) -> (res: (usize, usize))
    ensures
        res.0 == anchor_scan(units@, units@.len() as int).0,
        res.0 != 0 ==> res.1 == anchor_scan(units@, units@.len() as int).1,
{
    let mut count: usize = 0;
    let mut last: usize = 0;
    let mut k: usize = 0;
    while k < units.len()
        invariant
            k <= units@.len(),
            count <= k,
            count == anchor_scan(units@, k as int).0,
            count != 0 ==> last == anchor_scan(units@, k as int).1,
        decreases units@.len() - k,
    {
        if units[k] == 1 {
            count = count + 1;
            last = k;
        }
        k = k + 1;
    }
    (count, last)
}

/// Inserts `picture` after every picture with a CP no larger than its own.
fn insert_by_cp(pictures: &mut Vec<InlinePicture>, picture: InlinePicture)
    requires
        pictures_sorted(old(pictures)@),
    ensures
        pictures_sorted(final(pictures)@),
        picture_keys(final(pictures)@).to_multiset() == picture_keys(old(pictures)@).to_multiset().insert(
            picture_key(picture),
        ),
{
    let mut pos: usize = 0;
    while pos < pictures.len() && pictures[pos].cp <= picture.cp
        invariant
            pos <= pictures@.len(),
            forall|i: int| 0 <= i < pos ==> (#[trigger] pictures@[i]).cp <= picture.cp,
        decreases pictures@.len() - pos,
    {
        pos = pos + 1;
    }
    let ghost before = pictures@;
    pictures.insert(pos, picture);
    proof {
        broadcast use vstd::seq_lib::group_to_multiset_ensures;

        assert(picture_keys(pictures@) =~= picture_keys(before).insert(pos as int, picture_key(picture)));
        vstd::seq_lib::to_multiset_insert(picture_keys(before), pos as int, picture_key(picture));
        assert forall|i: int, j: int| 0 <= i < j < pictures@.len() implies (#[trigger] pictures@[i]).cp
            <= (#[trigger] pictures@[j]).cp by {
            if j == pos {
                assert(pictures@[i] == before[i]);
            } else if i == pos {
                assert(pictures@[j] == before[j - 1]);
                if pos < before.len() {
                    assert(before[pos as int].cp > picture.cp);
                    assert(before[pos as int].cp <= before[j - 1].cp);
                }
            } else if i < pos && j > pos {
                assert(pictures@[j] == before[j - 1]);
            } else if j < pos {
            } else {
                assert(pictures@[i] == before[i - 1]);
                assert(pictures@[j] == before[j - 1]);
            }
        }
    }
}

impl MediaCollection {
    /// The pictures in CP order.
    pub closed spec fn spec_pictures(&self) -> Seq<InlinePicture> {
        self.pictures@
    }

    /// Resolves picture anchors through CHPX and parses only their exact PICF
    /// ranges. The Data stream is never scanned for byte signatures.
    pub fn parse(document: &WordBinaryDocument, limits: DocLimits) -> (res: Result<Self>)
        ensures
            media_collection_result(*document, limits, res),
    {
        let formatting = document.semantic_formatting(limits)?;
        let res = Self::from_runs(document, formatting.character_runs.as_slice(), limits);
        assert(media_result(*document, formatting.character_runs@, limits, res));
        res
    }

    /// Scans character runs `runs` of `document` for picture anchors and
    /// parses the picture each one names, in CP order.
    #[verifier::rlimit(60)]
    pub fn from_runs(document: &WordBinaryDocument, runs: &[SemanticCharacterRun], limits: DocLimits) -> (res:
        Result<Self>)
        ensures
            media_result(*document, runs@, limits, res),
    {
        let ghost doc = *document;
        let mut pictures: Vec<InlinePicture> = Vec::new();
        let mut keys: Vec<u32> = Vec::new();
        let mut retained: usize = 0;
        let mut office_art_records: usize = 0;
        let mut duplicate = false;
        let mut k: usize = 0;
        proof {
            assert(keys@ =~= anchor_cps(seq![]));
            assert(picture_keys(pictures@) =~= seq![]);
        }
        while k < runs.len()
            invariant
                doc == *document,
                k <= runs@.len(),
                media_fold(doc, runs@, limits, k as int) matches Ok(st) && st.retained == retained
                    && st.records == office_art_records && keys@ == anchor_cps(st.pictures)
                    && picture_keys(pictures@).to_multiset() == st.pictures.to_multiset(),
                pictures_sorted(pictures@),
                duplicate == has_duplicate(keys@),
            decreases runs@.len() - k,
        {
            let ghost st = media_fold(doc, runs@, limits, k as int)->Ok_0;
            let run = &runs[k];
            assert(media_fold(doc, runs@, limits, k + 1) == media_step(doc, runs@[k as int], limits, st));
            let data_offset = match run.properties.picture_location {
                Some(o) => o,
                None => {
                    k = k + 1;
                    continue;
                },
            };
            let a = run.source.cp_start;
            let b = run.source.cp_end;
            let text = match document.decode_range(a, b) {
                Ok(t) => t,
                Err(e) => {
                    proof {
                        lemma_media_fold_failed(doc, runs@, limits, k + 1, runs@.len() as int);
                    }
                    return Err(e);
                },
            };
            let (count, index) = scan_anchors(text.utf16.as_slice());
            if count == 0 {
                k = k + 1;
                continue;
            }
            if count != 1 || run.properties.special != Some(ToggleValue::On) || index as u64 > 0xFFFF_FFFF
                - a as u64 {
                proof {
                    lemma_media_fold_failed(doc, runs@, limits, k + 1, runs@.len() as int);
                }
                return Err(invalid_media("picture anchor is not a single specially formatted character"));
            }
            let cp = a + index as u32;
            if run.properties.binary_data == Some(true) {
                let expected_end = if a == u32::MAX {
                    a
                } else {
                    a + 1
                };
                let ok = match document.data_stream() {
                    Some(data) => {
                        if b != expected_end {
                            Err(invalid_media("binary-data CHPX range must contain exactly one character"))
                        } else {
                            validate_nil_picf_and_bin_data(data, data_offset)
                        }
                    },
                    None => Err(invalid_media("binary-data character references an absent Data stream")),
                };
                if let Err(e) = ok {
                    proof {
                        lemma_media_fold_failed(doc, runs@, limits, k + 1, runs@.len() as int);
                    }
                    return Err(e);
                }
                k = k + 1;
                continue;
            }
            if pictures.len() >= limits.max_media_items {
                proof {
                    assert(picture_keys(pictures@).len() == pictures@.len());
                    vstd::seq_lib::to_multiset_len(picture_keys(pictures@));
                    vstd::seq_lib::to_multiset_len(st.pictures);
                    lemma_media_fold_failed(doc, runs@, limits, k + 1, runs@.len() as int);
                }
                return Err(resource_limit("inline-picture", pictures.len(), limits.max_media_items));
            }
            let data = match document.data_stream() {
                Some(d) => d,
                None => {
                    proof {
                        assert(picture_keys(pictures@).len() == pictures@.len());
                        vstd::seq_lib::to_multiset_len(picture_keys(pictures@));
                        vstd::seq_lib::to_multiset_len(st.pictures);
                        lemma_media_fold_failed(doc, runs@, limits, k + 1, runs@.len() as int);
                    }
                    return Err(invalid_media("picture references an absent Data stream"));
                },
            };
            proof {
                assert(picture_keys(pictures@).len() == pictures@.len());
                vstd::seq_lib::to_multiset_len(picture_keys(pictures@));
                vstd::seq_lib::to_multiset_len(st.pictures);
            }
            let picture = match parse_picf(data, data_offset, cp, limits, &mut office_art_records) {
                Ok(p) => p,
                Err(e) => {
                    proof {
                        lemma_media_fold_failed(doc, runs@, limits, k + 1, runs@.len() as int);
                    }
                    return Err(e);
                },
            };
            let bytes = picture_bytes(&picture);
            let next = match bytes {
                Some(v) => if v > usize::MAX - retained {
                    None
                } else {
                    Some(retained + v)
                },
                None => None,
            };
            let total = match next {
                Some(t) => t,
                None => {
                    proof {
                        lemma_media_fold_failed(doc, runs@, limits, k + 1, runs@.len() as int);
                    }
                    return Err(invalid_media("media byte count overflow"));
                },
            };
            if total > limits.max_media_bytes {
                proof {
                    lemma_media_fold_failed(doc, runs@, limits, k + 1, runs@.len() as int);
                }
                return Err(resource_limit("media-byte", total, limits.max_media_bytes));
            }
            retained = total;
            let found = contains_u32(keys.as_slice(), cp);
            proof {
                lemma_duplicate_push(keys@, cp);
            }
            duplicate = duplicate || found;
            let ghost key = picture_key(picture);
            keys.push(cp);
            insert_by_cp(&mut pictures, picture);
            proof {
                broadcast use vstd::seq_lib::group_to_multiset_ensures;

                let st2 = media_fold(doc, runs@, limits, k + 1)->Ok_0;
                assert(st2.pictures == st.pictures.push(key));
                assert(keys@ =~= anchor_cps(st2.pictures));
            }
            k = k + 1;
        }
        if duplicate {
            return Err(invalid_media("multiple picture records resolve to the same CP"));
        }
        Ok(MediaCollection { pictures })
    }

    /// The pictures in CP order.
    pub fn pictures(&self) -> (res: &[InlinePicture])
        ensures
            res@ == self.spec_pictures(),
    {
        self.pictures.as_slice()
    }
}

} // verus!

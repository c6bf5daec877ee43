//! CLX/Pcdt/PlcPcd parsing and CP-preserving text retrieval.

use vstd::prelude::*;

use crate::binary::{ByteCursor, le_i32, le_u16, le_u32, read_i32_le, read_u16_le, read_u32_le};
use crate::error::{DocError, ErrorKind, Outcome, Result, err_kind, first_failure, lemma_first_failure_persists, message};
use crate::limits::DocLimits;
use crate::sprm::{
    PropertyGroup,
    Sprm,
    decode_grpprl,
    grpprl_frames,
    sprm_group,
    sprms_are_frames,
};
use crate::text::{decode_utf16_lossy, utf16_lossy};

verus! {

/// `fCompressed` bit of `FcCompressed`.
pub const COMPRESSED_FLAG: u32 = 0x4000_0000;

/// Reserved bit of `FcCompressed`, which must be clear.
pub const RESERVED_FLAG: u32 = 0x8000_0000;

/// Mask of the `fc` field of `FcCompressed`.
pub const FC_MASK: u32 = 0x3FFF_FFFF;

/// Physical encoding of a Word text piece.
#[derive(Debug, Clone, Copy, PartialEq, Eq, Structural)]
pub enum PieceEncoding {
    /// One byte per CP using the `FcCompressed` 8-bit mapping.
    Compressed,
    /// UTF-16LE, two bytes per CP.
    Utf16,
}

/// One source-backed range from `PlcPcd`.
#[derive(Debug, Clone, Copy, PartialEq, Eq, Structural)]
pub struct TextPiece {
    /// First character position in the logical document stream.
    pub cp_start: u32,
    /// Exclusive logical character end.
    pub cp_end: u32,
    /// Byte offset in the `WordDocument` stream.
    pub file_offset: u32,
    /// Physical text encoding.
    pub encoding: PieceEncoding,
    /// Property modifier attached to the PCD.
    pub prm: u16,
}

/// Bytes per CP of an encoding.
pub open spec fn spec_bytes_per_cp(encoding: PieceEncoding) -> int {
    match encoding {
        PieceEncoding::Compressed => 1,
        PieceEncoding::Utf16 => 2,
    }
}

/// `n` CPs in `encoding`, as a byte count.
pub open spec fn cp_bytes(encoding: PieceEncoding, n: int) -> int {
    match encoding {
        PieceEncoding::Compressed => n,
        PieceEncoding::Utf16 => 2 * n,
    }
}

impl TextPiece {
    /// Number of logical CPs in the piece.
    pub fn len(self) -> (res: u32)
        requires
            self.cp_start <= self.cp_end,
        ensures
            res == self.cp_end - self.cp_start,
    {
        self.cp_end - self.cp_start
    }

    /// Whether the piece is empty.
    pub fn is_empty(self) -> (res: bool)
        ensures
            res == (self.cp_start == self.cp_end),
    {
        self.cp_start == self.cp_end
    }

    /// Bytes used per CP.
    pub fn bytes_per_cp(self) -> (res: u32)
        ensures
            res == spec_bytes_per_cp(self.encoding),
    {
        match self.encoding {
            PieceEncoding::Compressed => 1,
            PieceEncoding::Utf16 => 2,
        }
    }

    /// Byte length of the piece's text.
    pub fn byte_length(self) -> (res: Result<u32>)
        requires
            self.cp_start <= self.cp_end,
        ensures
            res is Ok <==> cp_bytes(self.encoding, self.cp_end - self.cp_start) <= u32::MAX,
            res is Ok ==> res->Ok_0 == cp_bytes(self.encoding, self.cp_end - self.cp_start),
            res is Err ==> res->Err_0.kind() == ErrorKind::InvalidPieceTable,
    {
        let n = self.len();
        match self.encoding {
            PieceEncoding::Compressed => Ok(n),
            PieceEncoding::Utf16 => {
                if n > u32::MAX / 2 {
                    Err(DocError::InvalidPieceTable(message("UTF-16 piece byte length overflow")))
                } else {
                    Ok(2 * n)
                }
            },
        }
    }

    /// Exclusive byte end of the piece's text.
    pub fn file_end(self) -> (res: Result<u32>)
        requires
            self.cp_start <= self.cp_end,
        ensures
            res is Ok <==> self.file_offset + cp_bytes(self.encoding, self.cp_end - self.cp_start)
                <= u32::MAX,
            res is Ok ==> res->Ok_0 == self.file_offset + cp_bytes(
                self.encoding,
                self.cp_end - self.cp_start,
            ),
            res is Err ==> res->Err_0.kind() == ErrorKind::InvalidPieceTable,
    {
        let length = self.byte_length()?;
        if self.file_offset > u32::MAX - length {
            return Err(DocError::InvalidPieceTable(message("text piece file range overflow")));
        }
        Ok(self.file_offset + length)
    }
}

/// Decoded text with its original CP range and UTF-16 units.
#[derive(Debug, Clone, PartialEq, Eq)]
pub struct DecodedText {
    /// Source CP start.
    pub cp_start: u32,
    /// Source CP end.
    pub cp_end: u32,
    /// Source-aligned UTF-16 code units (one entry per CP).
    pub utf16: Vec<u16>,
    /// Displayable Unicode string; unpaired surrogates become U+FFFD.
    pub text: String,
}

/// Properties referenced by a PCD's compact `Prm` value.
#[derive(Debug, Clone, PartialEq, Eq)]
pub enum PiecePropertyModifier {
    /// The special zero-valued `Prm0`, which has no effect.
    NoEffect,
    /// A compact `Prm0`; unknown `isprm` values remain explicitly unresolved.
    Simple {
        /// Seven-bit compact property identifier.
        isprm: u8,
        /// One-byte property operand.
        value: u8,
        /// Exact expanded SPRM when this implementation knows the mapping.
        sprm: Option<Sprm>,
    },
    /// A `Prm1` resolved through the zero-based CLX `RgPrc` array.
    Complex {
        /// Zero-based `RgPrc` index.
        index: u16,
        /// Exactly framed properties from the referenced `Prc`.
        sprms: Vec<Sprm>,
    },
}

/// The records of `sprms` whose property family is `group`, in order.
pub open spec fn sprms_in_group(sprms: Seq<Sprm>, group: PropertyGroup) -> Seq<Sprm> {
    sprms.filter(|s: Sprm| s.group == group)
}

/// Whether `a` and `b` hold equal records, operands compared by content.
pub open spec fn same_sprms(a: Seq<Sprm>, b: Seq<Sprm>) -> bool {
    &&& a.len() == b.len()
    &&& forall|i: int| 0 <= i < a.len() ==> #[trigger] same_sprm(a[i], b[i])
}

/// Whether two records have equal fields and operand bytes.
pub open spec fn same_sprm(a: Sprm, b: Sprm) -> bool {
    &&& a.opcode == b.opcode
    &&& a.property_id == b.property_id
    &&& a.special == b.special
    &&& a.group == b.group
    &&& a.operand@ == b.operand@
}

/// Whether `res` are the properties of `m` that affect family `group`.
pub open spec fn modifier_contributes(m: PiecePropertyModifier, group: PropertyGroup, res: Seq<Sprm>) -> bool {
    match m {
        PiecePropertyModifier::Simple { sprm: Some(s), .. } => if s.group == group {
            same_sprms(res, seq![s])
        } else {
            res.len() == 0
        },
        PiecePropertyModifier::Complex { sprms, .. } => same_sprms(res, sprms_in_group(sprms@, group)),
        _ => res.len() == 0,
    }
}

impl PiecePropertyModifier {
    /// Returns properties from this modifier that affect one property family.
    pub fn sprms_for(&self, group: PropertyGroup) -> (res: Vec<Sprm>)
        ensures
            modifier_contributes(*self, group, res@),
    {
        match self {
            PiecePropertyModifier::Simple { sprm: Some(sprm), .. } => {
                if sprm.group == group {
                    let mut v = Vec::new();
                    v.push(sprm.duplicate());
                    v
                } else {
                    Vec::new()
                }
            },
            PiecePropertyModifier::Complex { sprms, .. } => {
                let mut result: Vec<Sprm> = Vec::new();
                let mut i: usize = 0;
                while i < sprms.len()
                    invariant
                        i <= sprms@.len(),
                        same_sprms(result@, sprms_in_group(sprms@.take(i as int), group)),
                    decreases sprms@.len() - i,
                {
                    proof {
                        let f = |s: Sprm| s.group == group;
                        assert(sprms@.take(i as int + 1).drop_last() =~= sprms@.take(i as int));
                        reveal_with_fuel(Seq::filter, 1);
                    }
                    if sprms[i].group == group {
                        result.push(sprms[i].duplicate());
                    }
                    i = i + 1;
                }
                assert(sprms@.take(sprms@.len() as int) =~= sprms@);
                result
            },
            _ => Vec::new(),
        }
    }
}

/// Validated Word text piece table.
#[derive(Debug, Clone, PartialEq, Eq)]
pub struct PieceTable {
    pieces: Vec<TextPiece>,
    property_groups: Vec<Vec<u8>>,
    cp_end: u32,
}

/// Whether `pieces` tile `[0, cp_end)` with non-empty, contiguous CP ranges
/// and encodable file offsets.
pub open spec fn pieces_tile(pieces: Seq<TextPiece>, cp_end: u32) -> bool {
    &&& forall|k: int| 0 <= k < pieces.len() ==> #[trigger] pieces[k].cp_start < pieces[k].cp_end
    &&& forall|k: int|
        0 <= k < pieces.len() - 1 ==> #[trigger] pieces[k].cp_end == pieces[k + 1].cp_start
    &&& pieces.len() > 0 ==> pieces[0].cp_start == 0 && pieces.last().cp_end == cp_end
    &&& pieces.len() == 0 ==> cp_end == 0
}

impl PieceTable {
    /// Ordered pieces.
    pub closed spec fn spec_pieces(&self) -> Seq<TextPiece> {
        self.pieces@
    }

    /// Raw `RgPrc` property groups.
    pub closed spec fn spec_groups(&self) -> Seq<Seq<u8>> {
        self.property_groups@.map_values(|g: Vec<u8>| g@)
    }

    /// Terminal CP.
    pub closed spec fn spec_cp_end(&self) -> u32 {
        self.cp_end
    }

    /// The pieces tile `[0, cp_end)`.
    pub open spec fn wf(&self) -> bool {
        pieces_tile(self.spec_pieces(), self.spec_cp_end())
    }

    /// Ordered text pieces.
    pub fn pieces(&self) -> (res: &[TextPiece])
        ensures
            res@ == self.spec_pieces(),
    {
        self.pieces.as_slice()
    }

    /// Exclusive terminal CP of the piece table.
    pub fn cp_end(&self) -> (res: u32)
        ensures
            res == self.spec_cp_end(),
    {
        self.cp_end
    }

    /// Reusable raw `grpprl` records retained from the CLX `RgPrc` array.
    pub fn property_groups(&self) -> (res: &[Vec<u8>])
        ensures
            res@.map_values(|g: Vec<u8>| g@) == self.spec_groups(),
    {
        self.property_groups.as_slice()
    }
}

// ---- CLX framing.

/// Scans CLX bytes `s` from `offset` having kept `groups`: the retained
/// `RgPrc` groups and the `[start, end)` of the `Pcdt`'s `PlcPcd`, or the
/// kind of the first failure.
pub open spec fn clx_scan(s: Seq<u8>, offset: int, groups: Seq<Seq<u8>>, max_groups: int) -> Outcome<
    (Seq<Seq<u8>>, int, int),
>
    decreases s.len() - offset,
{
    if offset < 0 || offset >= s.len() {
        Err(ErrorKind::OutOfBounds)
    } else if s[offset] == 1 {
        if offset + 3 > s.len() {
            Err(ErrorKind::OutOfBounds)
        } else if groups.len() >= max_groups {
            Err(ErrorKind::ResourceLimit)
        } else {
            let n = le_u16(s, offset + 1) as int;
            if offset + 3 + n > s.len() {
                Err(ErrorKind::OutOfBounds)
            } else {
                clx_scan(s, offset + 3 + n, groups.push(s.subrange(offset + 3, offset + 3 + n)), max_groups)
            }
        }
    } else if s[offset] == 2 {
        if offset + 5 > s.len() {
            Err(ErrorKind::OutOfBounds)
        } else {
            let n = le_u32(s, offset + 1) as int;
            if offset + 5 + n > s.len() {
                Err(ErrorKind::OutOfBounds)
            } else if offset + 5 + n != s.len() {
                Err(ErrorKind::InvalidPieceTable)
            } else {
                Ok((groups, offset + 5, offset + 5 + n))
            }
        }
    } else {
        Err(ErrorKind::InvalidPieceTable)
    }
}

// ---- PlcPcd layout.

/// Number of PCDs in `PlcPcd` bytes `p`.
pub open spec fn pcd_count(p: Seq<u8>) -> int {
    (p.len() - 4) / 12
}

/// CP `k` of `PlcPcd` bytes `p`.
pub open spec fn pcd_cp(p: Seq<u8>, k: int) -> i32 {
    le_i32(p, 4 * k)
}

/// Raw `FcCompressed` of PCD `k`.
pub open spec fn pcd_raw_fc(p: Seq<u8>, k: int) -> u32 {
    le_u32(p, 4 * (pcd_count(p) + 1) + 8 * k + 2)
}

/// Whether PCD `k` has an invalid `FcCompressed`.
pub open spec fn pcd_fc_invalid(p: Seq<u8>, k: int) -> bool {
    let fc = pcd_raw_fc(p, k);
    fc & RESERVED_FLAG != 0 || (fc & COMPRESSED_FLAG != 0 && (fc & FC_MASK) % 2 != 0)
}

/// The text piece described by PCD `k`.
pub open spec fn pcd_piece(p: Seq<u8>, k: int) -> TextPiece {
    let fc = pcd_raw_fc(p, k);
    let compressed = fc & COMPRESSED_FLAG != 0;
    TextPiece {
        cp_start: pcd_cp(p, k) as u32,
        cp_end: pcd_cp(p, k + 1) as u32,
        file_offset: if compressed {
            ((fc & FC_MASK) / 2) as u32
        } else {
            fc & FC_MASK
        },
        encoding: if compressed {
            PieceEncoding::Compressed
        } else {
            PieceEncoding::Utf16
        },
        prm: le_u16(p, 4 * (pcd_count(p) + 1) + 8 * k + 6),
    }
}

/// The kind of the first failure of `PlcPcd` bytes `p`, if any.
pub open spec fn plc_pcd_failure(p: Seq<u8>, limits: DocLimits) -> Option<ErrorKind> {
    if p.len() < 4 || (p.len() - 4) % 12 != 0 {
        Some(ErrorKind::InvalidPieceTable)
    } else if pcd_count(p) > limits.max_pieces {
        Some(ErrorKind::ResourceLimit)
    } else if (exists|k: int| 0 <= k <= pcd_count(p) && #[trigger] pcd_cp(p, k) < 0) || pcd_cp(p, 0)
        != 0 || (exists|k: int| 0 <= k < pcd_count(p) && #[trigger] pcd_cp(p, k) >= pcd_cp(p, k + 1))
        || (exists|k: int| 0 <= k < pcd_count(p) && #[trigger] pcd_fc_invalid(p, k)) {
        Some(ErrorKind::InvalidPieceTable)
    } else {
        None
    }
}

/// The pieces of a valid `PlcPcd`.
pub open spec fn plc_pcd_pieces(p: Seq<u8>) -> Seq<TextPiece> {
    Seq::new(pcd_count(p) as nat, |k: int| pcd_piece(p, k))
}

/// Terminal CP of the pieces.
pub open spec fn pieces_end(pieces: Seq<TextPiece>) -> u32 {
    if pieces.len() == 0 {
        0
    } else {
        pieces.last().cp_end
    }
}

/// The kind of the first failure of `PieceTable::parse`, if any.
pub open spec fn piece_table_failure(clx: Seq<u8>, expected_cp_end: u32, limits: DocLimits) -> Option<
    ErrorKind,
> {
    match clx_scan(clx, 0, seq![], limits.max_piece_property_groups as int) {
        Err(e) => Some(e),
        Ok((_, start, end)) => {
            let p = clx.subrange(start, end);
            match plc_pcd_failure(p, limits) {
                Some(e) => Some(e),
                None => if pieces_end(plc_pcd_pieces(p)) != expected_cp_end {
                    Some(ErrorKind::InvalidPieceTable)
                } else {
                    None
                },
            }
        },
    }
}

// ---- Text decoding.

/// `FcCompressed` 8-bit mapping of the Windows-1252 specials in `0x80..0xA0`.
pub open spec fn compressed_unit(byte: u8) -> u16 {
    if byte == 0x82 {
        0x201A
    } else if byte == 0x83 {
        0x0192
    } else if byte == 0x84 {
        0x201E
    } else if byte == 0x85 {
        0x2026
    } else if byte == 0x86 {
        0x2020
    } else if byte == 0x87 {
        0x2021
    } else if byte == 0x88 {
        0x02C6
    } else if byte == 0x89 {
        0x2030
    } else if byte == 0x8A {
        0x0160
    } else if byte == 0x8B {
        0x2039
    } else if byte == 0x8C {
        0x0152
    } else if byte == 0x91 {
        0x2018
    } else if byte == 0x92 {
        0x2019
    } else if byte == 0x93 {
        0x201C
    } else if byte == 0x94 {
        0x201D
    } else if byte == 0x95 {
        0x2022
    } else if byte == 0x96 {
        0x2013
    } else if byte == 0x97 {
        0x2014
    } else if byte == 0x98 {
        0x02DC
    } else if byte == 0x99 {
        0x2122
    } else if byte == 0x9A {
        0x0161
    } else if byte == 0x9B {
        0x203A
    } else if byte == 0x9C {
        0x0153
    } else if byte == 0x9F {
        0x0178
    } else {
        byte as u16
    }
}

/// The Windows-1252 characters of the bytes `0x80..0xA0`, the five bytes
/// Windows-1252 leaves undefined standing for themselves.
#[verifier::opaque]
pub open spec fn windows_1252_c1() -> Seq<u16> {
    seq![
        0x20ACu16, 0x0081, 0x201A, 0x0192, 0x201E, 0x2026, 0x2020, 0x2021,
        0x02C6, 0x2030, 0x0160, 0x2039, 0x0152, 0x008D, 0x017D, 0x008F,
        0x0090, 0x2018, 0x2019, 0x201C, 0x201D, 0x2022, 0x2013, 0x2014,
        0x02DC, 0x2122, 0x0161, 0x203A, 0x0153, 0x009D, 0x017E, 0x0178,
    ]
}

/// An 8-bit text piece holds Windows-1252 text: each byte decodes to its
/// Windows-1252 character, except the euro sign `0x80` and the carons
/// `0x8E` and `0x9E`, which decode to themselves. So every byte outside
/// `0x80..0xA0` stands for itself, every byte that Windows-1252 defines in
/// that range (the curly quotes `0x91..0x94` among them) leaves the C1
/// controls for a character of its own, and no two bytes decode alike.
pub proof fn lemma_compressed_units_are_windows_1252(b: u8, c: u8)
    ensures
        (b < 0x80 || b >= 0xA0) ==> compressed_unit(b) == b as u16,
        (b == 0x80 || b == 0x8E || b == 0x9E) ==> compressed_unit(b) == b as u16,
        (0x80 <= b < 0xA0 && b != 0x80 && b != 0x8E && b != 0x9E) ==> compressed_unit(b)
            == windows_1252_c1()[b - 0x80],
        (0x80 <= b < 0xA0 && b != 0x80 && b != 0x81 && b != 0x8D && b != 0x8E && b != 0x8F && b != 0x90 && b
            != 0x9D && b != 0x9E) ==> compressed_unit(b) >= 0x100,
        b != c ==> compressed_unit(b) != compressed_unit(c),
{
    reveal(windows_1252_c1);
    assert(b < 0x80 || b >= 0xA0 || b == 0x80 || b == 0x81 || b == 0x82 || b == 0x83 || b == 0x84 || b == 0x85
        || b == 0x86 || b == 0x87 || b == 0x88 || b == 0x89 || b == 0x8A || b == 0x8B || b == 0x8C || b == 0x8D
        || b == 0x8E || b == 0x8F || b == 0x90 || b == 0x91 || b == 0x92 || b == 0x93 || b == 0x94 || b == 0x95
        || b == 0x96 || b == 0x97 || b == 0x98 || b == 0x99 || b == 0x9A || b == 0x9B || b == 0x9C || b == 0x9D
        || b == 0x9E || b == 0x9F);
}

/// The UTF-16 unit stored for CP `cp` of `piece` in `word`.
pub open spec fn unit_at(word: Seq<u8>, piece: TextPiece, cp: int) -> u16 {
    match piece.encoding {
        PieceEncoding::Compressed => compressed_unit(word[piece.file_offset + cp - piece.cp_start]),
        PieceEncoding::Utf16 => le_u16(word, piece.file_offset + 2 * (cp - piece.cp_start)),
    }
}

/// The units of CPs `[a, b)` of `piece`.
pub open spec fn span_units(word: Seq<u8>, piece: TextPiece, a: int, b: int) -> Seq<u16> {
    Seq::new((b - a) as nat, |i: int| unit_at(word, piece, a + i))
}

/// Why CPs `[a, b)` of `piece` cannot be read from `word_len` bytes, if so.
pub open spec fn span_failure(word_len: int, piece: TextPiece, a: int, b: int) -> Option<ErrorKind> {
    let rel = cp_bytes(piece.encoding, a - piece.cp_start);
    let start = piece.file_offset + rel;
    let length = cp_bytes(piece.encoding, b - a);
    if rel > u32::MAX || start > u32::MAX || length > u32::MAX {
        Some(ErrorKind::InvalidPieceTable)
    } else if start + length > word_len {
        Some(ErrorKind::OutOfBounds)
    } else {
        None
    }
}

/// Whether `piece` overlaps `[a, b)`.
pub open spec fn overlaps(piece: TextPiece, a: int, b: int) -> bool {
    piece.cp_start < b && piece.cp_end > a
}

/// Larger of two integers.
pub open spec fn imax(x: int, y: int) -> int {
    if x >= y {
        x
    } else {
        y
    }
}

/// Smaller of two integers.
pub open spec fn imin(x: int, y: int) -> int {
    if x <= y {
        x
    } else {
        y
    }
}

/// Units of `[a, b)` contributed by the first `k` pieces.
pub open spec fn units_upto(word: Seq<u8>, pieces: Seq<TextPiece>, k: int, a: int, b: int) -> Seq<u16>
    decreases k,
{
    if k <= 0 {
        seq![]
    } else {
        let p = pieces[k - 1];
        let prefix = units_upto(word, pieces, k - 1, a, b);
        if overlaps(p, a, b) {
            prefix + span_units(word, p, imax(p.cp_start as int, a), imin(p.cp_end as int, b))
        } else {
            prefix
        }
    }
}

/// Per-piece checks of decoding `[a, b)`: the failure of each overlapping piece.
pub open spec fn decode_checks(word_len: int, pieces: Seq<TextPiece>, a: int, b: int) -> Seq<Option<ErrorKind>> {
    Seq::new(pieces.len(), |k: int| if overlaps(pieces[k], a, b) {
        span_failure(word_len, pieces[k], imax(pieces[k].cp_start as int, a), imin(pieces[k].cp_end as int, b))
    } else {
        None
    })
}

/// Per-piece checks of `validate_word_bounds(n)`.
pub open spec fn bounds_checks(pieces: Seq<TextPiece>, n: int) -> Seq<Option<ErrorKind>> {
    Seq::new(pieces.len(), |k: int| {
        let p = pieces[k];
        let length = cp_bytes(p.encoding, p.cp_end - p.cp_start);
        if length > u32::MAX {
            Some(ErrorKind::InvalidPieceTable)
        } else if p.file_offset + length > n {
            Some(ErrorKind::OutOfBounds)
        } else {
            None
        }
    })
}

/// Decoding `[a, b)` through `pieces` ending at `cp_end`: the units, or the
/// kind of the first failure.
pub open spec fn decode_pieces(pieces: Seq<TextPiece>, cp_end: u32, word: Seq<u8>, a: u32, b: u32) -> Outcome<Seq<u16>> {
    if a > b || b > cp_end {
        Err(ErrorKind::InvalidPieceTable)
    } else {
        match first_failure(decode_checks(word.len() as int, pieces, a as int, b as int), pieces.len() as int) {
            Some(e) => Err(e),
            None => Ok(units_upto(word, pieces, pieces.len() as int, a as int, b as int)),
        }
    }
}

/// The pieces retained from CLX bytes that parse.
pub open spec fn clx_pieces(clx: Seq<u8>, limits: DocLimits) -> Seq<TextPiece> {
    match clx_scan(clx, 0, seq![], limits.max_piece_property_groups as int) {
        Ok((_, start, end)) => plc_pcd_pieces(clx.subrange(start, end)),
        Err(_) => seq![],
    }
}

/// Start of piece `k` in a tiling: the end of the previous piece.
pub open spec fn boundary(pieces: Seq<TextPiece>, k: int) -> int {
    if k <= 0 {
        0
    } else {
        pieces[k - 1].cp_end as int
    }
}

/// `x` clamped into `[a, b]`.
pub open spec fn clamp(x: int, a: int, b: int) -> int {
    imin(imax(x, a), b)
}

proof fn lemma_units_len(word: Seq<u8>, pieces: Seq<TextPiece>, cp_end: u32, k: int, a: int, b: int)
    requires
        pieces_tile(pieces, cp_end),
        0 <= k <= pieces.len(),
        0 <= a <= b,
    ensures
        units_upto(word, pieces, k, a, b).len() == clamp(boundary(pieces, k), a, b) - a,
    decreases k,
{
    if k > 0 {
        lemma_units_len(word, pieces, cp_end, k - 1, a, b);
        if k > 1 {
            assert(pieces[k - 2].cp_end == pieces[k - 1].cp_start);
        }
    }
}

impl PieceTable {
    /// What `decode_range(word, a, b)` yields: the units, or the failure kind.
    pub open spec fn spec_decode(&self, word: Seq<u8>, a: u32, b: u32) -> Outcome<Seq<u16>> {
        decode_pieces(self.spec_pieces(), self.spec_cp_end(), word, a, b)
    }

    /// Whether this table holds exactly what CLX bytes `clx` describe.
    pub open spec fn parsed_from(&self, clx: Seq<u8>, limits: DocLimits) -> bool {
        match clx_scan(clx, 0, seq![], limits.max_piece_property_groups as int) {
            Ok((groups, start, end)) => {
                &&& self.spec_pieces() == plc_pcd_pieces(clx.subrange(start, end))
                &&& self.spec_groups() == groups
                &&& self.spec_cp_end() == pieces_end(self.spec_pieces())
            },
            Err(_) => false,
        }
    }

    /// Parse a CLX and validate its terminal CP against the FIB.
    pub fn parse(clx: &[u8], expected_cp_end: u32, limits: DocLimits) -> (res: Result<Self>)
        ensures
            err_kind(res) == piece_table_failure(clx@, expected_cp_end, limits),
            res matches Ok(t) ==> t.parsed_from(clx@, limits) && t.wf() && t.spec_cp_end()
                == expected_cp_end,
            res matches Ok(t) ==> t.spec_pieces().len() <= limits.max_pieces && t.spec_groups().len()
                <= limits.max_piece_property_groups && pieces_tile(t.spec_pieces(), expected_cp_end),
            match clx_scan(clx@, 0, seq![], limits.max_piece_property_groups as int) {
                Err(ErrorKind::ResourceLimit) => res == Err::<PieceTable, DocError>(
                    DocError::ResourceLimit {
                        resource: "piece-property-group",
                        actual: if limits.max_piece_property_groups < u64::MAX {
                            (limits.max_piece_property_groups + 1) as u64
                        } else {
                            0
                        },
                        limit: limits.max_piece_property_groups as u64,
                    },
                ),
                Ok((_, start, end)) => plc_pcd_failure(clx@.subrange(start, end), limits) == Some(
                    ErrorKind::ResourceLimit,
                ) ==> res == Err::<PieceTable, DocError>(
                    DocError::ResourceLimit {
                        resource: "text-piece",
                        actual: pcd_count(clx@.subrange(start, end)) as u64,
                        limit: limits.max_pieces as u64,
                    },
                ),
                _ => true,
            },
    {
        let ghost s = clx@;
        let max_groups = limits.max_piece_property_groups;
        let mut cursor = ByteCursor::new(clx, "CLX");
        let mut property_groups: Vec<Vec<u8>> = Vec::new();
        assert(property_groups@.map_values(|g: Vec<u8>| g@) =~= seq![]);
        let pcdt: &[u8];
        loop
            invariant_except_break
                s == clx@,
                max_groups == limits.max_piece_property_groups,
                cursor.wf(),
                cursor.bytes() == s,
                clx_scan(s, 0, seq![], max_groups as int) == clx_scan(
                    s,
                    cursor.pos(),
                    property_groups@.map_values(|g: Vec<u8>| g@),
                    max_groups as int,
                ),
                property_groups@.len() <= max_groups,
            ensures
                property_groups@.len() <= max_groups,
                clx_scan(s, 0, seq![], max_groups as int) matches Ok((groups, start, end)) && groups
                    == property_groups@.map_values(|g: Vec<u8>| g@) && pcdt@ == s.subrange(
                    start,
                    end,
                ),
            decreases s.len() - cursor.pos(),
        {
            let ghost groups_before = property_groups@.map_values(|g: Vec<u8>| g@);
            let ghost pos0 = cursor.pos();
            let marker_bytes = cursor.take(1)?;
            let marker = marker_bytes[0];
            assert(marker == s[pos0]);
            if marker == 1 {
                let length = cursor.read_u16()? as usize;
                if property_groups.len() >= max_groups {
                    return Err(
                        DocError::ResourceLimit {
                            resource: "piece-property-group",
                            actual: (property_groups.len() as u64).wrapping_add(1),
                            limit: max_groups as u64,
                        },
                    );
                }
                let group = cursor.take(length)?;
                property_groups.push(vstd::slice::slice_to_vec(group));
                proof {
                    assert(property_groups@.map_values(|g: Vec<u8>| g@) =~= groups_before.push(
                        group@,
                    ));
                }
            } else if marker == 2 {
                let length = cursor.read_u32()? as usize;
                let bytes = cursor.take(length)?;
                if cursor.position() != clx.len() {
                    return Err(DocError::InvalidPieceTable(message("trailing bytes follow Pcdt")));
                }
                pcdt = bytes;
                assert(clx_scan(s, pos0, groups_before, max_groups as int) == Ok::<
                    (Seq<Seq<u8>>, int, int),
                    ErrorKind,
                >((groups_before, pos0 + 5, pos0 + 5 + length)));
                break ;
            } else {
                return Err(DocError::InvalidPieceTable(message("unexpected CLX marker")));
            }
        }
        let pieces = parse_plc_pcd(pcdt, limits)?;
        let cp_end = if pieces.len() == 0 {
            0
        } else {
            pieces[pieces.len() - 1].cp_end
        };
        if cp_end != expected_cp_end {
            return Err(DocError::InvalidPieceTable(message("terminal CP disagrees with the FIB")));
        }
        Ok(Self { pieces, property_groups, cp_end })
    }
}

/// Reads PCD `k` of `PlcPcd` bytes `data`, given its CP range.
fn read_pcd(data: &[u8], piece_count: usize, k: usize, cp_start: u32, cp_end: u32) -> (res: Result<
    TextPiece,
>)
    requires
        data@.len() == 4 + 12 * piece_count,
        piece_count == pcd_count(data@),
        k < piece_count,
        cp_start == pcd_cp(data@, k as int) as u32,
        cp_end == pcd_cp(data@, k as int + 1) as u32,
    ensures
        res is Ok <==> !pcd_fc_invalid(data@, k as int),
        res is Ok ==> res->Ok_0 == pcd_piece(data@, k as int),
        res is Err ==> res->Err_0.kind() == ErrorKind::InvalidPieceTable,
{
    let len = data.len();
    let at = 4 * (piece_count + 1) + 8 * k;
    let raw_fc = read_u32_le(data, at + 2);
    let prm = read_u16_le(data, at + 6);
    if raw_fc & RESERVED_FLAG != 0 {
        return Err(DocError::InvalidPieceTable(message("PCD sets reserved FcCompressed bit")));
    }
    let compressed = raw_fc & COMPRESSED_FLAG != 0;
    let encoded_fc = raw_fc & FC_MASK;
    if compressed && encoded_fc % 2 != 0 {
        return Err(DocError::InvalidPieceTable(message("PCD has odd compressed fc")));
    }
    Ok(
        TextPiece {
            cp_start,
            cp_end,
            file_offset: if compressed {
                encoded_fc / 2
            } else {
                encoded_fc
            },
            encoding: if compressed {
                PieceEncoding::Compressed
            } else {
                PieceEncoding::Utf16
            },
            prm,
        },
    )
}

/// Parses and validates `PlcPcd` bytes.
pub fn parse_plc_pcd(data: &[u8], limits: DocLimits) -> (res: Result<Vec<TextPiece>>)
    ensures
        err_kind(res) == plc_pcd_failure(data@, limits),
        res matches Ok(v) ==> v@ == plc_pcd_pieces(data@) && pieces_tile(v@, pieces_end(v@)) && v@.len()
            <= limits.max_pieces,
        plc_pcd_failure(data@, limits) == Some(ErrorKind::ResourceLimit) ==> res == Err::<Vec<TextPiece>, DocError>(
            DocError::ResourceLimit {
                resource: "text-piece",
                actual: pcd_count(data@) as u64,
                limit: limits.max_pieces as u64,
            },
        ),
{
    let ghost p = data@;
    let len = data.len();
    if len < 4 || (len - 4) % 12 != 0 {
        return Err(DocError::InvalidPieceTable(message("PlcPcd length is not 4 + 12*n")));
    }
    let piece_count = (len - 4) / 12;
    if piece_count > limits.max_pieces {
        return Err(
            DocError::ResourceLimit {
                resource: "text-piece",
                actual: piece_count as u64,
                limit: limits.max_pieces as u64,
            },
        );
    }
    let mut cps: Vec<u32> = Vec::new();
    let mut k: usize = 0;
    while k <= piece_count
        invariant
            p == data@,
            len == data@.len(),
            piece_count == pcd_count(p),
            piece_count <= limits.max_pieces,
            data@.len() == 4 + 12 * piece_count,
            len == 4 + 12 * piece_count,
            k <= piece_count + 1,
            cps@.len() == k,
            forall|j: int| 0 <= j < k ==> #[trigger] pcd_cp(p, j) >= 0 && cps@[j] == pcd_cp(p, j),
        decreases piece_count + 1 - k,
    {
        let cp = read_i32_le(data, 4 * k);
        if cp < 0 {
            assert(pcd_cp(p, k as int) < 0);
            return Err(DocError::InvalidPieceTable(message("negative character position")));
        }
        cps.push(cp as u32);
        k = k + 1;
    }
    if cps[0] != 0 {
        return Err(DocError::InvalidPieceTable(message("first character position is not zero")));
    }
    let mut k: usize = 0;
    while k < piece_count
        invariant
            p == data@,
            piece_count == pcd_count(p),
            piece_count <= limits.max_pieces,
            data@.len() == 4 + 12 * piece_count,
            cps@.len() == piece_count + 1,
            k <= piece_count,
            forall|j: int| 0 <= j <= piece_count ==> #[trigger] pcd_cp(p, j) >= 0 && cps@[j] == pcd_cp(p, j),
            forall|j: int| 0 <= j < k ==> #[trigger] pcd_cp(p, j) < pcd_cp(p, j + 1),
        decreases piece_count - k,
    {
        if cps[k] >= cps[k + 1] {
            assert(pcd_cp(p, k as int) >= pcd_cp(p, k as int + 1));
            return Err(DocError::InvalidPieceTable(message("character positions are not strictly increasing")));
        }
        k = k + 1;
    }
    let mut pieces: Vec<TextPiece> = Vec::new();
    let mut k: usize = 0;
    while k < piece_count
        invariant
            p == data@,
            piece_count == pcd_count(p),
            piece_count <= limits.max_pieces,
            data@.len() == 4 + 12 * piece_count,
            len == data@.len(),
            len == 4 + 12 * piece_count,
            cps@.len() == piece_count + 1,
            k <= piece_count,
            forall|j: int| 0 <= j <= piece_count ==> #[trigger] pcd_cp(p, j) >= 0 && cps@[j] == pcd_cp(p, j),
            pieces@.len() == k,
            forall|j: int| 0 <= j < k ==> !#[trigger] pcd_fc_invalid(p, j),
            forall|j: int| 0 <= j < k ==> #[trigger] pieces@[j] == pcd_piece(p, j),
        decreases piece_count - k,
    {
        let piece = match read_pcd(data, piece_count, k, cps[k], cps[k + 1]) {
            Ok(piece) => piece,
            Err(e) => {
                assert(pcd_fc_invalid(p, k as int));
                return Err(e);
            },
        };
        pieces.push(piece);
        k = k + 1;
    }
    proof {
        assert(pieces@ =~= plc_pcd_pieces(p));
        assert(!(exists|k: int| 0 <= k <= pcd_count(p) && #[trigger] pcd_cp(p, k) < 0));
        assert(!(exists|k: int| 0 <= k < pcd_count(p) && #[trigger] pcd_cp(p, k) >= pcd_cp(p, k + 1)));
        assert(!(exists|k: int| 0 <= k < pcd_count(p) && #[trigger] pcd_fc_invalid(p, k)));
        assert forall|k: int| 0 <= k < pieces@.len() - 1 implies #[trigger] pieces@[k].cp_end == pieces@[k + 1].cp_start by {}
        assert forall|k: int| 0 <= k < pieces@.len() implies #[trigger] pieces@[k].cp_start < pieces@[k].cp_end by {
            assert(pcd_cp(p, k) < pcd_cp(p, k + 1));
        }
    }
    Ok(pieces)
}

/// What `PieceTable::resolve_prm` gives for `raw`.
pub open spec fn prm_resolved(pt: PieceTable, raw: u16, res: Result<PiecePropertyModifier>) -> bool {
    &&& raw % 2 == 0 ==> {
        let isprm = ((raw / 2) % 128) as u8;
        let value = (raw / 256) as u8;
        if isprm == 0 && value == 0 {
            res matches Ok(PiecePropertyModifier::NoEffect)
        } else {
            &&& res matches Ok(PiecePropertyModifier::Simple { isprm: i, value: v, sprm })
            &&& i == isprm && v == value
            &&& match spec_simple_prm_opcode(isprm) {
                Some(op) => if sprm_group(op) is Some {
                    sprm is Some && sprm.unwrap().is_frame((op, seq![value]))
                } else {
                    sprm is None
                },
                None => sprm is None,
            }
        }
    }
    &&& raw % 2 == 1 ==> {
        let index = raw / 2;
        &&& index >= pt.spec_groups().len() ==> res is Err && res->Err_0.kind()
            == ErrorKind::InvalidPieceTable
        &&& index < pt.spec_groups().len() ==> {
            &&& res is Ok <==> grpprl_frames(pt.spec_groups()[index as int], 0) is Some
            &&& res is Ok ==> (res matches Ok(PiecePropertyModifier::Complex { index: i, sprms }) && i
                == index && sprms_are_frames(
                sprms@,
                grpprl_frames(pt.spec_groups()[index as int], 0).unwrap(),
            ))
            &&& res is Err ==> res->Err_0.kind() == ErrorKind::InvalidFormatting
        }
    }
}

impl PieceTable {
    /// Resolves a raw PCD `Prm0` or `Prm1` without discarding unknown values.
    pub fn resolve_prm(&self, raw: u16) -> (res: Result<PiecePropertyModifier>)
        ensures
            prm_resolved(*self, raw, res),
    {
        if raw % 2 == 0 {
            let isprm = ((raw / 2) % 128) as u8;
            let value = (raw / 256) as u8;
            if isprm == 0 && value == 0 {
                return Ok(PiecePropertyModifier::NoEffect);
            }
            let sprm = match simple_prm_opcode(isprm) {
                Some(opcode) => match crate::sprm::property_group(opcode) {
                    Some(group) => Some(
                        Sprm {
                            opcode,
                            property_id: opcode & 0x01FF,
                            special: opcode & 0x0200 != 0,
                            group,
                            operand: single_byte(value),
                        },
                    ),
                    None => None,
                },
                None => None,
            };
            return Ok(PiecePropertyModifier::Simple { isprm, value, sprm });
        }
        let index = raw / 2;
        if index as usize >= self.property_groups.len() {
            return Err(DocError::InvalidPieceTable(message("Prm1 index exceeds CLX RgPrc count")));
        }
        let group = &self.property_groups[index as usize];
        proof {
            assert(self.spec_groups()[index as int] == group@);
        }
        match decode_grpprl(group.as_slice()) {
            Ok(sprms) => Ok(PiecePropertyModifier::Complex { index, sprms }),
            Err(_) => Err(DocError::InvalidFormatting(message("CLX RgPrc cannot be framed"))),
        }
    }

    /// Validate all physical piece ranges against meaningful `WordDocument` bytes.
    pub fn validate_word_bounds(&self, meaningful_word_bytes: usize) -> (res: Result<()>)
        requires
            self.wf(),
        ensures
            err_kind(res) == first_failure(
                bounds_checks(self.spec_pieces(), meaningful_word_bytes as int),
                self.spec_pieces().len() as int,
            ),
            err_kind(res) == Some(ErrorKind::OutOfBounds) ==> (res matches Err(
                DocError::OutOfBounds { structure, available, .. },
            ) && structure == "text piece" && available == meaningful_word_bytes),
    {
        let ghost fs = bounds_checks(self.spec_pieces(), meaningful_word_bytes as int);
        let mut k: usize = 0;
        while k < self.pieces.len()
            invariant
                self.wf(),
                fs == bounds_checks(self.spec_pieces(), meaningful_word_bytes as int),
                k <= self.spec_pieces().len(),
                first_failure(fs, k as int) is None,
            decreases self.spec_pieces().len() - k,
        {
            let piece = self.pieces[k];
            assert(piece.cp_start < piece.cp_end);
            let byte_length = match piece.byte_length() {
                Ok(n) => n,
                Err(e) => {
                    proof {
                        lemma_first_failure_persists(fs, k as int + 1, fs.len() as int);
                    }
                    return Err(e);
                },
            };
            let start = piece.file_offset as usize;
            let length = byte_length as usize;
            if start > meaningful_word_bytes || length > meaningful_word_bytes - start {
                proof {
                    lemma_first_failure_persists(fs, k as int + 1, fs.len() as int);
                }
                let end = if start <= usize::MAX - length {
                    start + length
                } else {
                    usize::MAX
                };
                return Err(
                    DocError::OutOfBounds {
                        structure: "text piece",
                        offset: start,
                        end,
                        available: meaningful_word_bytes,
                    },
                );
            }
            k = k + 1;
        }
        Ok(())
    }

    /// Decode an arbitrary source CP range without losing UTF-16 alignment.
    pub fn decode_range(&self, word_document: &[u8], cp_start: u32, cp_end: u32) -> (res: Result<
        DecodedText,
    >)
        requires
            self.wf(),
        ensures
            match self.spec_decode(word_document@, cp_start, cp_end) {
                Ok(units) => res matches Ok(d) && d.cp_start == cp_start && d.cp_end == cp_end
                    && d.utf16@ == units && d.text@ == utf16_lossy(units),
                Err(e) => res is Err && res->Err_0.kind() == e,
            },
    {
        if cp_start > cp_end || cp_end > self.cp_end {
            return Err(DocError::InvalidPieceTable(message("requested CP range exceeds the piece table")));
        }
        let ghost pieces = self.spec_pieces();
        let ghost word = word_document@;
        let ghost fs = decode_checks(word.len() as int, pieces, cp_start as int, cp_end as int);
        let capacity = (cp_end - cp_start) as usize;
        let mut utf16: Vec<u16> = Vec::new();
        let mut k: usize = 0;
        while k < self.pieces.len()
            invariant
                self.wf(),
                pieces == self.spec_pieces(),
                word == word_document@,
                fs == decode_checks(word.len() as int, pieces, cp_start as int, cp_end as int),
                cp_start <= cp_end <= self.spec_cp_end(),
                k <= pieces.len(),
                first_failure(fs, k as int) is None,
                utf16@ == units_upto(word, pieces, k as int, cp_start as int, cp_end as int),
            decreases pieces.len() - k,
        {
            let piece = self.pieces[k];
            if piece.cp_start < cp_end && piece.cp_end > cp_start {
                let overlap_start = if piece.cp_start >= cp_start {
                    piece.cp_start
                } else {
                    cp_start
                };
                let overlap_end = if piece.cp_end <= cp_end {
                    piece.cp_end
                } else {
                    cp_end
                };
                match decode_piece(word_document, piece, overlap_start, overlap_end, &mut utf16) {
                    Ok(()) => {},
                    Err(e) => {
                        proof {
                            lemma_first_failure_persists(fs, k as int + 1, fs.len() as int);
                        }
                        return Err(e);
                    },
                }
            }
            k = k + 1;
        }
        proof {
            lemma_units_len(word, pieces, self.spec_cp_end(), pieces.len() as int, cp_start as int, cp_end as int);
        }
        if utf16.len() != capacity {
            return Err(DocError::InvalidPieceTable(message("decoded unit count disagrees with the CP range")));
        }
        let text = decode_utf16_lossy(utf16.as_slice());
        Ok(DecodedText { cp_start, cp_end, utf16, text })
    }
}

/// Compact `Prm0` identifiers whose expanded SPRM is known.
pub open spec fn spec_simple_prm_opcode(isprm: u8) -> Option<u16> {
    if isprm == 0x05 { Some(0x2403u16) }
    else if isprm == 0x07 { Some(0x2405u16) }
    else if isprm == 0x08 { Some(0x2406u16) }
    else if isprm == 0x09 { Some(0x2407u16) }
    else if isprm == 0x0C { Some(0x260Au16) }
    else if isprm == 0x0D { Some(0x2470u16) }
    else if isprm == 0x18 { Some(0x2416u16) }
    else if isprm == 0x19 { Some(0x2417u16) }
    else if isprm == 0x4D { Some(0x2A0Cu16) }
    else if isprm == 0x4E { Some(0x0858u16) }
    else if isprm == 0x53 { Some(0x2A33u16) }
    else if isprm == 0x55 { Some(0x0835u16) }
    else if isprm == 0x56 { Some(0x0836u16) }
    else if isprm == 0x57 { Some(0x0837u16) }
    else if isprm == 0x58 { Some(0x0838u16) }
    else if isprm == 0x59 { Some(0x0839u16) }
    else if isprm == 0x5A { Some(0x083Au16) }
    else if isprm == 0x5B { Some(0x083Bu16) }
    else if isprm == 0x5C { Some(0x083Cu16) }
    else if isprm == 0x5E { Some(0x2A3Eu16) }
    else if isprm == 0x62 { Some(0x2A42u16) }
    else if isprm == 0x68 { Some(0x2A48u16) }
    else if isprm == 0x73 { Some(0x2A53u16) }
    else if isprm == 0x74 { Some(0x0854u16) }
    else if isprm == 0x75 { Some(0x0855u16) }
    else if isprm == 0x76 { Some(0x0856u16) }
    else if isprm == 0x78 { Some(0x2640u16) }
    else { None }
}

/// The expanded SPRM opcode of a compact `Prm0` identifier, when known.
pub fn simple_prm_opcode(isprm: u8) -> (res: Option<u16>)
    ensures
        res == spec_simple_prm_opcode(isprm),
{
    match isprm {
        0x05 => Some(0x2403),  // sprmPJc
        0x07 => Some(0x2405),  // sprmPFKeep
        0x08 => Some(0x2406),  // sprmPFKeepFollow
        0x09 => Some(0x2407),  // sprmPFPageBreakBefore
        0x0C => Some(0x260A),  // sprmPIlvl
        0x0D => Some(0x2470),  // sprmPFMirrorIndents
        0x18 => Some(0x2416),  // sprmPFInTable
        0x19 => Some(0x2417),  // sprmPFTtp
        0x4D => Some(0x2A0C),  // sprmCHighlight
        0x4E => Some(0x0858),  // sprmCFEmboss
        0x53 => Some(0x2A33),  // sprmCPlain
        0x55 => Some(0x0835),  // sprmCFBold
        0x56 => Some(0x0836),  // sprmCFItalic
        0x57 => Some(0x0837),  // sprmCFStrike
        0x58 => Some(0x0838),  // sprmCFOutline
        0x59 => Some(0x0839),  // sprmCFShadow
        0x5A => Some(0x083A),  // sprmCFSmallCaps
        0x5B => Some(0x083B),  // sprmCFCaps
        0x5C => Some(0x083C),  // sprmCFVanish
        0x5E => Some(0x2A3E),  // sprmCKul
        0x62 => Some(0x2A42),  // sprmCIco
        0x68 => Some(0x2A48),  // sprmCIss
        0x73 => Some(0x2A53),  // sprmCFDStrike
        0x74 => Some(0x0854),  // sprmCFImprint
        0x75 => Some(0x0855),  // sprmCFSpec
        0x76 => Some(0x0856),  // sprmCFObj
        0x78 => Some(0x2640),  // sprmPOutLvl
        _ => None,
    }
}

/// Appends the units of CPs `[cp_start, cp_end)` of `piece` to `output`.
pub fn decode_piece(
    word_document: &[u8],
    piece: TextPiece,
    cp_start: u32,
    cp_end: u32,
    output: &mut Vec<u16>,
) -> (res: Result<()>)
    requires
        piece.cp_start <= cp_start <= cp_end <= piece.cp_end,
    ensures
        err_kind(res) == span_failure(word_document@.len() as int, piece, cp_start as int, cp_end as int),
        res is Ok ==> final(output)@ == old(output)@ + span_units(
            word_document@,
            piece,
            cp_start as int,
            cp_end as int,
        ),
        res is Err ==> final(output)@ == old(output)@,
{
    let relative_start = cp_start - piece.cp_start;
    let cp_count = cp_end - cp_start;
    let (byte_start, byte_length) = match piece.encoding {
        PieceEncoding::Compressed => {
            if piece.file_offset > u32::MAX - relative_start {
                return Err(DocError::InvalidPieceTable(message("piece range file offset overflow")));
            }
            (piece.file_offset + relative_start, cp_count)
        },
        PieceEncoding::Utf16 => {
            if relative_start > u32::MAX / 2 {
                return Err(DocError::InvalidPieceTable(message("piece range byte offset overflow")));
            }
            if piece.file_offset > u32::MAX - 2 * relative_start {
                return Err(DocError::InvalidPieceTable(message("piece range file offset overflow")));
            }
            if cp_count > u32::MAX / 2 {
                return Err(DocError::InvalidPieceTable(message("piece range byte length overflow")));
            }
            (piece.file_offset + 2 * relative_start, 2 * cp_count)
        },
    };
    let start = byte_start as usize;
    let length = byte_length as usize;
    let available = word_document.len();
    if start > available || length > available - start {
        let end = if start <= usize::MAX - length {
            start + length
        } else {
            usize::MAX
        };
        return Err(DocError::OutOfBounds { structure: "text piece", offset: start, end, available });
    }
    let ghost old_output = output@;
    let ghost expected = span_units(word_document@, piece, cp_start as int, cp_end as int);
    let count = cp_count as usize;
    let mut i: usize = 0;
    while i < count
        invariant
            i <= count,
            available == word_document@.len(),
            count == cp_end - cp_start,
            expected == span_units(word_document@, piece, cp_start as int, cp_end as int),
            start == piece.file_offset + cp_bytes(piece.encoding, cp_start - piece.cp_start),
            start + cp_bytes(piece.encoding, count as int) <= word_document@.len(),
            output@ == old_output + expected.take(i as int),
        decreases count - i,
    {
        let unit = match piece.encoding {
            PieceEncoding::Compressed => compressed_byte_to_utf16(word_document[start + i]),
            PieceEncoding::Utf16 => read_u16_le(word_document, start + 2 * i),
        };
        assert(unit == expected[i as int]);
        output.push(unit);
        assert(expected.take(i as int + 1) =~= expected.take(i as int).push(unit));
        i = i + 1;
    }
    assert(expected.take(count as int) =~= expected);
    Ok(())
}

/// A one-byte vector.
fn single_byte(value: u8) -> (res: Vec<u8>)
    ensures
        res@ == seq![value],
{
    let mut v = Vec::new();
    v.push(value);
    v
}

/// Maps one `FcCompressed` byte to its UTF-16 unit.
pub fn compressed_byte_to_utf16(byte: u8) -> (res: u16)
    ensures
        res == compressed_unit(byte),
{
    match byte {
        0x82 => 0x201A,
        0x83 => 0x0192,
        0x84 => 0x201E,
        0x85 => 0x2026,
        0x86 => 0x2020,
        0x87 => 0x2021,
        0x88 => 0x02C6,
        0x89 => 0x2030,
        0x8A => 0x0160,
        0x8B => 0x2039,
        0x8C => 0x0152,
        0x91 => 0x2018,
        0x92 => 0x2019,
        0x93 => 0x201C,
        0x94 => 0x201D,
        0x95 => 0x2022,
        0x96 => 0x2013,
        0x97 => 0x2014,
        0x98 => 0x02DC,
        0x99 => 0x2122,
        0x9A => 0x0161,
        0x9B => 0x203A,
        0x9C => 0x0153,
        0x9F => 0x0178,
        _ => byte as u16,
    }
}

/// No check of the first `k` failed exactly when `first_failure` finds nothing there.
proof fn lemma_no_failure(fs: Seq<Option<ErrorKind>>, k: int)
    requires
        0 <= k <= fs.len(),
    ensures
        first_failure(fs, k) is None <==> forall|i: int| 0 <= i < k ==> #[trigger] fs[i] is None,
    decreases k,
{
    if k > 0 {
        lemma_no_failure(fs, k - 1);
    }
}

/// A readable span of a piece stays readable when narrowed, in a stream of at most `u32::MAX` bytes.
proof fn lemma_sub_span_ok(word_len: int, p: TextPiece, a: int, b: int, c: int, d: int)
    requires
        p.cp_start <= a <= c <= d <= b,
        word_len <= u32::MAX,
        span_failure(word_len, p, a, b) is None,
    ensures
        span_failure(word_len, p, c, d) is None,
{
}

/// The units of piece `p` over `[a, b)` are those over `[a, m)` followed by those over `[m, b)`.
proof fn lemma_piece_units_split(word: Seq<u8>, p: TextPiece, a: int, m: int, b: int)
    requires
        p.cp_start < p.cp_end,
        a <= m <= b,
    ensures
        (if overlaps(p, a, b) {
            span_units(word, p, imax(p.cp_start as int, a), imin(p.cp_end as int, b))
        } else {
            seq![]
        }) =~= (if overlaps(p, a, m) {
            span_units(word, p, imax(p.cp_start as int, a), imin(p.cp_end as int, m))
        } else {
            seq![]
        }) + (if overlaps(p, m, b) {
            span_units(word, p, imax(p.cp_start as int, m), imin(p.cp_end as int, b))
        } else {
            seq![]
        }),
{
    if overlaps(p, a, m) && overlaps(p, m, b) {
        let x = imax(p.cp_start as int, a);
        let y = imin(p.cp_end as int, b);
        let left = span_units(word, p, x, m);
        let right = span_units(word, p, m, y);
        assert forall|i: int| 0 <= i < y - x implies #[trigger] span_units(word, p, x, y)[i] == (left + right)[i] by {
            if i < m - x {
                assert((left + right)[i] == left[i]);
            } else {
                assert((left + right)[i] == right[i - (m - x)]);
            }
        }
    }
}

/// Over a tiling, the units of `[a, b)` are those of `[a, m)` followed by those of `[m, b)`.
proof fn lemma_units_split(word: Seq<u8>, pieces: Seq<TextPiece>, cp_end: u32, k: int, a: int, m: int, b: int)
    requires
        pieces_tile(pieces, cp_end),
        0 <= k <= pieces.len(),
        0 <= a <= m <= b,
    ensures
        units_upto(word, pieces, k, a, b) == units_upto(word, pieces, k, a, m) + units_upto(word, pieces, k, m, b),
    decreases k,
{
    if k > 0 {
        lemma_units_split(word, pieces, cp_end, k - 1, a, m, b);
        let p = pieces[k - 1];
        let l1 = units_upto(word, pieces, k - 1, a, m);
        let l2 = units_upto(word, pieces, k - 1, m, b);
        let sab = if overlaps(p, a, b) {
            span_units(word, p, imax(p.cp_start as int, a), imin(p.cp_end as int, b))
        } else {
            seq![]
        };
        let sam = if overlaps(p, a, m) {
            span_units(word, p, imax(p.cp_start as int, a), imin(p.cp_end as int, m))
        } else {
            seq![]
        };
        let smb = if overlaps(p, m, b) {
            span_units(word, p, imax(p.cp_start as int, m), imin(p.cp_end as int, b))
        } else {
            seq![]
        };
        assert(p.cp_start < p.cp_end);
        lemma_piece_units_split(word, p, a, m, b);
        assert(units_upto(word, pieces, k, a, b) =~= l1 + l2 + sab);
        assert(units_upto(word, pieces, k, a, m) =~= l1 + sam);
        assert(units_upto(word, pieces, k, m, b) =~= l2 + smb);
        if (p.cp_start as int) < m {
            lemma_units_len(word, pieces, cp_end, k - 1, m, b);
            if k > 1 {
                assert(pieces[k - 2].cp_end == pieces[k - 1].cp_start);
            }
            assert(l2 =~= seq![]);
            assert(l1 + l2 + sab =~= l1 + sam + (l2 + smb));
        } else {
            assert(sam =~= seq![]);
            assert(l1 + l2 + sab =~= l1 + sam + (l2 + smb));
        }
    }
}

/// Decoding a CP range of a well-formed table from a stream of at most `u32::MAX`
/// bytes gives the decoding of `[a, m)` followed by that of `[m, b)`, for any
/// middle CP `m`, and both halves decode.
pub proof fn lemma_decode_split(t: PieceTable, word: Seq<u8>, a: u32, m: u32, b: u32)
    requires
        t.wf(),
        a <= m <= b,
        word.len() <= u32::MAX,
        t.spec_decode(word, a, b) is Ok,
    ensures
        t.spec_decode(word, a, m) is Ok,
        t.spec_decode(word, m, b) is Ok,
        t.spec_decode(word, a, b)->Ok_0 == t.spec_decode(word, a, m)->Ok_0 + t.spec_decode(word, m, b)->Ok_0,
{
    let pieces = t.spec_pieces();
    let n = pieces.len() as int;
    let len = word.len() as int;
    let fab = decode_checks(len, pieces, a as int, b as int);
    let fam = decode_checks(len, pieces, a as int, m as int);
    let fmb = decode_checks(len, pieces, m as int, b as int);
    lemma_no_failure(fab, n);
    lemma_no_failure(fam, n);
    lemma_no_failure(fmb, n);
    assert forall|k: int| 0 <= k < n implies #[trigger] fam[k] is None && fmb[k] is None by {
        let p = pieces[k];
        assert(fab[k] is None);
        if overlaps(p, a as int, m as int) {
            lemma_sub_span_ok(
                len,
                p,
                imax(p.cp_start as int, a as int),
                imin(p.cp_end as int, b as int),
                imax(p.cp_start as int, a as int),
                imin(p.cp_end as int, m as int),
            );
        }
        if overlaps(p, m as int, b as int) {
            lemma_sub_span_ok(
                len,
                p,
                imax(p.cp_start as int, a as int),
                imin(p.cp_end as int, b as int),
                imax(p.cp_start as int, m as int),
                imin(p.cp_end as int, b as int),
            );
        }
    }
    assert forall|k: int| 0 <= k < n implies #[trigger] fmb[k] is None by {
        assert(fam[k] is None && fmb[k] is None);
    }
    lemma_units_split(word, pieces, t.spec_cp_end(), n, a as int, m as int, b as int);
}

} // verus!

//! Bounded BTE PLCF and PAPX/CHPX FKP parsing.

use vstd::prelude::*;

use crate::binary::{checked_slice, le_u16, le_u32, le_u32_seq, read_u16_le, read_u32_le, strictly_increasing};
use crate::error::{DocError, ErrorKind, Outcome, Result, message};
use crate::fib::{FcLcb, Fib, INDEX_PLCF_BTE_CHPX, INDEX_PLCF_BTE_PAPX};
use crate::limits::DocLimits;
use crate::piece_table::{
    PiecePropertyModifier, PieceTable, TextPiece, cp_bytes, modifier_contributes, prm_resolved, same_sprm, same_sprms,
    spec_bytes_per_cp,
};
use crate::plc::{is_strictly_increasing, read_u32_array};
use crate::properties::{
    CharacterPropertyDelta, ParagraphPropertyDelta, TabChange, TabStop, apply_character_sprms, apply_paragraph_sprms,
    character_fields_match, character_sprm_ok, paragraph_fields_match, paragraph_sprm_ok,
};
use crate::sprm::{PropertyGroup, Sprm, decode_grpprl, grpprl_frames, sprms_are_frames};
use crate::styles::{
    StyleKind, StyleSheet, append_sprms, chain_from, chain_sprms, default_font_values, font_sprm_matches,
    lemma_same_sprms_append, present,
};

verus! {

/// Size of one formatted disk page.
pub const FKP_SIZE: usize = 512;

/// Bits of a BTE entry that hold the page number.
pub const PAGE_NUMBER_MASK: u32 = 0x003F_FFFF;

/// Most runs in one CHPX FKP.
pub const MAX_CHPX_RUNS_PER_FKP: usize = 0x65;

/// Most runs in one PAPX FKP.
pub const MAX_PAPX_RUNS_PER_FKP: usize = 0x1D;

/// Size of one `BxPap` entry.
pub const BX_PAP_SIZE: usize = 13;

/// One direct-formatting run backed by a physical `WordDocument` byte range.
#[derive(Debug, Clone, PartialEq, Eq)]
pub struct FormattingRun {
    /// Inclusive physical stream offset where this run begins.
    pub file_start: u32,
    /// Exclusive physical stream offset where this run ends.
    pub file_end: u32,
    /// Paragraph style index from `GrpPrlAndIstd`, for PAPX runs only.
    pub paragraph_style: Option<u16>,
    /// Raw, exactly bounded array of `Prl` structures.
    pub grpprl: Vec<u8>,
}

/// Direct character and paragraph formatting indexed by physical ranges.
#[derive(Debug, Clone, PartialEq, Eq)]
pub struct FormattingIndex {
    /// CHPX runs in BTE/FKP order.
    pub character_runs: Vec<FormattingRun>,
    /// PAPX runs in BTE/FKP order.
    pub paragraph_runs: Vec<FormattingRun>,
}

/// A run as plain values: `(file_start, file_end, paragraph_style, grpprl)`.
pub type RunSpec = (u32, u32, Option<u16>, Seq<u8>);

/// The plain values of `r`.
pub open spec fn run_spec(r: FormattingRun) -> RunSpec {
    (r.file_start, r.file_end, r.paragraph_style, r.grpprl@)
}

/// The plain values of `v`.
pub open spec fn runs_spec(v: Seq<FormattingRun>) -> Seq<RunSpec> {
    v.map_values(|r: FormattingRun| run_spec(r))
}

/// Which FKP family a page belongs to.
#[derive(Debug, Clone, Copy, PartialEq, Eq, Structural)]
pub enum FkpKind {
    /// CHPX pages.
    Character,
    /// PAPX pages.
    Paragraph,
}

// ---- FKP pages.

/// Run count of an FKP page.
pub open spec fn fkp_count(page: Seq<u8>) -> int {
    page[511] as int
}

/// Boundary FC `k` of an FKP page.
pub open spec fn fkp_boundary(page: Seq<u8>, k: int) -> u32 {
    le_u32(page, 4 * k)
}

/// Start of the CHPX property area.
pub open spec fn chpx_properties_start(count: int) -> int {
    (count + 1) * 4 + count
}

/// Property offset of CHPX run `k`.
pub open spec fn chpx_offset(page: Seq<u8>, count: int, k: int) -> int {
    page[(count + 1) * 4 + k] as int * 2
}

/// Whether CHPX run `k` has no properties or a `Chpx` inside the property area.
pub open spec fn chpx_entry_ok(page: Seq<u8>, count: int, k: int) -> bool {
    let o = chpx_offset(page, count, k);
    o == 0 || (chpx_properties_start(count) <= o < 511 && o + 1 + page[o] <= 511)
}

/// The `grpprl` of CHPX run `k`.
pub open spec fn chpx_grpprl(page: Seq<u8>, count: int, k: int) -> Seq<u8> {
    let o = chpx_offset(page, count, k);
    if o == 0 {
        seq![]
    } else {
        page.subrange(o + 1, o + 1 + page[o])
    }
}

/// Start of the PAPX property area.
pub open spec fn papx_properties_start(count: int) -> int {
    (count + 1) * 4 + count * 13
}

/// Property offset of PAPX run `k`.
pub open spec fn papx_offset(page: Seq<u8>, count: int, k: int) -> int {
    page[(count + 1) * 4 + 13 * k] as int * 2
}

/// Start of the `GrpPrlAndIstd` of the `PapxInFkp` at `o`.
pub open spec fn papx_start(page: Seq<u8>, o: int) -> int {
    if page[o] == 0 {
        o + 2
    } else {
        o + 1
    }
}

/// Length of the `GrpPrlAndIstd` of the `PapxInFkp` at `o`.
pub open spec fn papx_length(page: Seq<u8>, o: int) -> int {
    if page[o] == 0 {
        page[o + 1] * 2
    } else {
        page[o] * 2 - 1
    }
}

/// Whether the `PapxInFkp` at `o` is valid.
pub open spec fn papx_in_fkp_ok(page: Seq<u8>, o: int) -> bool {
    &&& page[o] == 0 ==> o + 1 < 511 && page[o + 1] != 0
    &&& papx_length(page, o) >= 2
    &&& papx_start(page, o) + papx_length(page, o) <= 511
}

/// Whether PAPX run `k` has no properties or a valid `PapxInFkp` inside the property area.
pub open spec fn papx_entry_ok(page: Seq<u8>, count: int, k: int) -> bool {
    let o = papx_offset(page, count, k);
    o == 0 || (papx_properties_start(count) <= o < 511 && papx_in_fkp_ok(page, o))
}

/// The paragraph style of PAPX run `k`.
pub open spec fn papx_style(page: Seq<u8>, count: int, k: int) -> Option<u16> {
    let o = papx_offset(page, count, k);
    if o == 0 {
        None
    } else {
        Some(le_u16(page, papx_start(page, o)))
    }
}

/// The `grpprl` of PAPX run `k`.
pub open spec fn papx_grpprl(page: Seq<u8>, count: int, k: int) -> Seq<u8> {
    let o = papx_offset(page, count, k);
    if o == 0 {
        seq![]
    } else {
        page.subrange(papx_start(page, o) + 2, papx_start(page, o) + papx_length(page, o))
    }
}

/// Whether `page` is a valid FKP of `kind`.
pub open spec fn fkp_ok(page: Seq<u8>, kind: FkpKind) -> bool {
    let count = fkp_count(page);
    &&& page.len() == FKP_SIZE
    &&& 1 <= count <= (match kind {
        FkpKind::Character => MAX_CHPX_RUNS_PER_FKP,
        FkpKind::Paragraph => MAX_PAPX_RUNS_PER_FKP,
    })
    &&& strictly_increasing(le_u32_seq(page, 0, (count + 1) as nat))
    &&& kind == FkpKind::Character ==> forall|k: int| 0 <= k < count ==> #[trigger] chpx_entry_ok(page, count, k)
    &&& kind == FkpKind::Paragraph ==> forall|k: int| 0 <= k < count ==> #[trigger] papx_entry_ok(page, count, k)
}

/// The runs of a valid FKP of `kind`.
pub open spec fn fkp_runs(page: Seq<u8>, kind: FkpKind) -> Seq<RunSpec> {
    let count = fkp_count(page);
    Seq::new(
        count as nat,
        |k: int|
            match kind {
                FkpKind::Character => (
                    fkp_boundary(page, k),
                    fkp_boundary(page, k + 1),
                    None,
                    chpx_grpprl(page, count, k),
                ),
                FkpKind::Paragraph => (
                    fkp_boundary(page, k),
                    fkp_boundary(page, k + 1),
                    papx_style(page, count, k),
                    papx_grpprl(page, count, k),
                ),
            },
    )
}

/// `page[start..end]`.
fn page_range(page: &[u8], start: usize, end: usize) -> (res: Vec<u8>)
    requires
        start <= end <= page@.len(),
    ensures
        res@ == page@.subrange(start as int, end as int),
{
    let mut v: Vec<u8> = Vec::new();
    let mut i: usize = start;
    while i < end
        invariant
            start <= i <= end <= page@.len(),
            v@ == page@.subrange(start as int, i as int),
        decreases end - i,
    {
        v.push(page[i]);
        assert(v@ =~= page@.subrange(start as int, i as int + 1));
        i = i + 1;
    }
    v
}

/// Reads the run count and strictly increasing boundaries of an FKP.
fn fkp_header(page: &[u8], kind: FkpKind) -> (res: Result<(usize, Vec<u32>)>)
    ensures
        res is Ok <==> page@.len() == FKP_SIZE && 1 <= fkp_count(page@) <= (match kind {
            FkpKind::Character => MAX_CHPX_RUNS_PER_FKP,
            FkpKind::Paragraph => MAX_PAPX_RUNS_PER_FKP,
        }) && strictly_increasing(le_u32_seq(page@, 0, (fkp_count(page@) + 1) as nat)),
        res matches Ok(r) ==> r.0 == fkp_count(page@) && r.1@ == le_u32_seq(page@, 0, (r.0 + 1) as nat),
        res is Err ==> res->Err_0.kind() == ErrorKind::InvalidFormatting,
{
    if page.len() != FKP_SIZE {
        return Err(DocError::InvalidFormatting(message("FKP is not 512 bytes")));
    }
    let count = page[FKP_SIZE - 1] as usize;
    let max = match kind {
        FkpKind::Character => MAX_CHPX_RUNS_PER_FKP,
        FkpKind::Paragraph => MAX_PAPX_RUNS_PER_FKP,
    };
    if count < 1 || count > max {
        return Err(DocError::InvalidFormatting(message("FKP run count is out of range")));
    }
    let boundaries = read_u32_array(page, count + 1);
    if !is_strictly_increasing(boundaries.as_slice()) {
        return Err(DocError::InvalidFormatting(message("FKP FC boundaries are not strictly increasing")));
    }
    Ok((count, boundaries))
}

/// Parses a CHPX FKP.
pub fn parse_chpx_fkp(page: &[u8]) -> (res: Result<Vec<FormattingRun>>)
    ensures
        res is Ok <==> fkp_ok(page@, FkpKind::Character),
        res matches Ok(v) ==> runs_spec(v@) == fkp_runs(page@, FkpKind::Character),
        res is Err ==> res->Err_0.kind() == ErrorKind::InvalidFormatting,
{
    let (count, boundaries) = fkp_header(page, FkpKind::Character)?;
    let offsets_start = (count + 1) * 4;
    let properties_start = offsets_start + count;
    let ghost expected = fkp_runs(page@, FkpKind::Character);
    let mut runs: Vec<FormattingRun> = Vec::new();
    let mut index: usize = 0;
    while index < count
        invariant
            page@.len() == FKP_SIZE,
            count == fkp_count(page@),
            1 <= count <= MAX_CHPX_RUNS_PER_FKP,
            offsets_start == (count + 1) * 4,
            properties_start == chpx_properties_start(count as int),
            boundaries@ == le_u32_seq(page@, 0, (count + 1) as nat),
            strictly_increasing(le_u32_seq(page@, 0, (count + 1) as nat)),
            expected == fkp_runs(page@, FkpKind::Character),
            index <= count,
            forall|k: int| 0 <= k < index ==> #[trigger] chpx_entry_ok(page@, count as int, k),
            runs_spec(runs@) == expected.take(index as int),
        decreases count - index,
    {
        let offset = page[offsets_start + index] as usize * 2;
        let grpprl = if offset == 0 {
            Vec::new()
        } else {
            if offset < properties_start || offset >= FKP_SIZE - 1 {
                assert(!chpx_entry_ok(page@, count as int, index as int));
                return Err(DocError::InvalidFormatting(message("ChpxFkp property offset is outside the property area")));
            }
            let length = page[offset] as usize;
            let start = offset + 1;
            if start + length > FKP_SIZE - 1 {
                assert(!chpx_entry_ok(page@, count as int, index as int));
                return Err(DocError::InvalidFormatting(message("ChpxFkp properties overrun the page")));
            }
            page_range(page, start, start + length)
        };
        let ghost before = runs_spec(runs@);
        runs.push(FormattingRun { file_start: boundaries[index], file_end: boundaries[index + 1], paragraph_style: None, grpprl });
        proof {
            assert(chpx_entry_ok(page@, count as int, index as int));
            assert(runs_spec(runs@) =~= before.push(expected[index as int]));
            assert(expected.take(index as int + 1) =~= expected.take(index as int).push(expected[index as int]));
        }
        index = index + 1;
    }
    assert(expected.take(count as int) =~= expected);
    Ok(runs)
}

/// Parses the `PapxInFkp` at `offset`: its style and `grpprl`.
fn parse_papx_in_fkp(page: &[u8], offset: usize) -> (res: Result<(u16, Vec<u8>)>)
    requires
        page@.len() == FKP_SIZE,
        offset < 511,
    ensures
        res is Ok <==> papx_in_fkp_ok(page@, offset as int),
        res matches Ok(r) ==> r.0 == le_u16(page@, papx_start(page@, offset as int)) && r.1@ == page@.subrange(
            papx_start(page@, offset as int) + 2,
            papx_start(page@, offset as int) + papx_length(page@, offset as int),
        ),
        res is Err ==> res->Err_0.kind() == ErrorKind::InvalidFormatting,
{
    let cb = page[offset] as usize;
    let (start, length) = if cb == 0 {
        let cb_prime_offset = offset + 1;
        if cb_prime_offset >= FKP_SIZE - 1 {
            return Err(DocError::InvalidFormatting(message("PapxFkp run has a truncated extended length")));
        }
        let cb_prime = page[cb_prime_offset] as usize;
        if cb_prime == 0 {
            return Err(DocError::InvalidFormatting(message("PapxFkp run extended length is zero")));
        }
        (offset + 2, cb_prime * 2)
    } else {
        (offset + 1, cb * 2 - 1)
    };
    if length < 2 || start + length > FKP_SIZE - 1 {
        return Err(DocError::InvalidFormatting(message("PapxFkp GrpPrlAndIstd range is invalid")));
    }
    let style = read_u16_le(page, start);
    Ok((style, page_range(page, start + 2, start + length)))
}

/// Parses a PAPX FKP.
pub fn parse_papx_fkp(page: &[u8]) -> (res: Result<Vec<FormattingRun>>)
    ensures
        res is Ok <==> fkp_ok(page@, FkpKind::Paragraph),
        res matches Ok(v) ==> runs_spec(v@) == fkp_runs(page@, FkpKind::Paragraph),
        res is Err ==> res->Err_0.kind() == ErrorKind::InvalidFormatting,
{
    let (count, boundaries) = fkp_header(page, FkpKind::Paragraph)?;
    let bx_start = (count + 1) * 4;
    let properties_start = bx_start + count * BX_PAP_SIZE;
    let ghost expected = fkp_runs(page@, FkpKind::Paragraph);
    let mut runs: Vec<FormattingRun> = Vec::new();
    let mut index: usize = 0;
    while index < count
        invariant
            page@.len() == FKP_SIZE,
            count == fkp_count(page@),
            1 <= count <= MAX_PAPX_RUNS_PER_FKP,
            bx_start == (count + 1) * 4,
            properties_start == papx_properties_start(count as int),
            boundaries@ == le_u32_seq(page@, 0, (count + 1) as nat),
            strictly_increasing(le_u32_seq(page@, 0, (count + 1) as nat)),
            expected == fkp_runs(page@, FkpKind::Paragraph),
            index <= count,
            forall|k: int| 0 <= k < index ==> #[trigger] papx_entry_ok(page@, count as int, k),
            runs_spec(runs@) == expected.take(index as int),
        decreases count - index,
    {
        let offset = page[bx_start + index * BX_PAP_SIZE] as usize * 2;
        let (paragraph_style, grpprl) = if offset == 0 {
            (None, Vec::new())
        } else {
            if offset < properties_start || offset >= FKP_SIZE - 1 {
                assert(!papx_entry_ok(page@, count as int, index as int));
                return Err(DocError::InvalidFormatting(message("PapxFkp property offset is outside the property area")));
            }
            match parse_papx_in_fkp(page, offset) {
                Ok((style, g)) => (Some(style), g),
                Err(e) => {
                    assert(!papx_entry_ok(page@, count as int, index as int));
                    return Err(e);
                },
            }
        };
        let ghost before = runs_spec(runs@);
        runs.push(FormattingRun { file_start: boundaries[index], file_end: boundaries[index + 1], paragraph_style, grpprl });
        proof {
            assert(papx_entry_ok(page@, count as int, index as int));
            assert(runs_spec(runs@) =~= before.push(expected[index as int]));
            assert(expected.take(index as int + 1) =~= expected.take(index as int).push(expected[index as int]));
        }
        index = index + 1;
    }
    assert(expected.take(count as int) =~= expected);
    Ok(runs)
}

// ---- BTE PLCF.

/// One BTE entry: the FC range of a page and its page number.
#[derive(Debug, Clone, Copy, PartialEq, Eq, Structural)]
pub struct BinTableEntry {
    pub file_start: u32,
    pub file_end: u32,
    pub page_number: u32,
}

/// Number of entries of BTE PLCF bytes `d`.
pub open spec fn bte_count(d: Seq<u8>) -> int {
    (d.len() - 4) / 8
}

/// Page number of entry `k`.
pub open spec fn bte_page(d: Seq<u8>, k: int) -> u32 {
    le_u32(d, 4 * (bte_count(d) + 1) + 4 * k) & PAGE_NUMBER_MASK
}

/// Why BTE PLCF bytes `d` are invalid, if they are.
pub open spec fn bte_failure(d: Seq<u8>, limits: DocLimits) -> Option<ErrorKind> {
    if d.len() < 4 || (d.len() - 4) % 8 != 0 {
        Some(ErrorKind::InvalidFormatting)
    } else if bte_count(d) > limits.max_formatting_pages {
        Some(ErrorKind::ResourceLimit)
    } else if !strictly_increasing(le_u32_seq(d, 0, (bte_count(d) + 1) as nat)) {
        Some(ErrorKind::InvalidFormatting)
    } else {
        None
    }
}

/// Whether `e` is entry `k` of valid BTE PLCF bytes `d`.
pub open spec fn bte_entry_is(e: BinTableEntry, d: Seq<u8>, k: int) -> bool {
    &&& e.file_start == le_u32(d, 4 * k)
    &&& e.file_end == le_u32(d, 4 * (k + 1))
    &&& e.page_number == bte_page(d, k)
    &&& e.page_number <= PAGE_NUMBER_MASK
}

/// A masked page number fits in 22 bits.
proof fn lemma_page_mask(x: u32)
    ensures
        x & PAGE_NUMBER_MASK <= PAGE_NUMBER_MASK,
{
    assert(x & 0x003F_FFFFu32 <= 0x003F_FFFFu32) by (bit_vector);
}

/// Parses a BTE PLCF: FC boundaries and page numbers.
pub fn parse_bin_table(data: &[u8], limits: DocLimits) -> (res: Result<Vec<BinTableEntry>>)
    ensures
        match bte_failure(data@, limits) {
            Some(e) => res is Err && res->Err_0.kind() == e,
            None => res matches Ok(v) && v@.len() == bte_count(data@) && forall|k: int|
                0 <= k < v@.len() ==> #[trigger] bte_entry_is(v@[k], data@, k),
        },
{
    let len = data.len();
    if len < 4 || (len - 4) % 8 != 0 {
        return Err(DocError::InvalidFormatting(message("BTE PLCF length is not 4 + 8*n")));
    }
    let count = (len - 4) / 8;
    if count > limits.max_formatting_pages {
        return Err(
            DocError::ResourceLimit {
                resource: "formatting-page",
                actual: count as u64,
                limit: limits.max_formatting_pages as u64,
            },
        );
    }
    let boundaries = read_u32_array(data, count + 1);
    if !is_strictly_increasing(boundaries.as_slice()) {
        return Err(DocError::InvalidFormatting(message("BTE FC boundaries are not strictly increasing")));
    }
    let boundary_bytes = (count + 1) * 4;
    let mut entries: Vec<BinTableEntry> = Vec::new();
    let mut k: usize = 0;
    while k < count
        invariant
            len == data@.len(),
            len == 4 + 8 * count,
            count == bte_count(data@),
            boundary_bytes == (count + 1) * 4,
            boundaries@ == le_u32_seq(data@, 0, (count + 1) as nat),
            k <= count,
            entries@.len() == k,
            forall|j: int| 0 <= j < k ==> #[trigger] bte_entry_is(entries@[j], data@, j),
        decreases count - k,
    {
        let raw = read_u32_le(data, boundary_bytes + 4 * k);
        let page = raw & PAGE_NUMBER_MASK;
        proof {
            lemma_page_mask(raw);
        }
        entries.push(BinTableEntry { file_start: boundaries[k], file_end: boundaries[k + 1], page_number: page });
        k = k + 1;
    }
    Ok(entries)
}

// ---- One property family.

/// The runs of the FKP with page number `page_number`, or the failure kind.
pub open spec fn page_outcome(word: Seq<u8>, page_number: u32, kind: FkpKind) -> Outcome<Seq<RunSpec>> {
    let offset = page_number * 512;
    if offset + 512 > word.len() {
        Err(ErrorKind::OutOfBounds)
    } else if !fkp_ok(word.subrange(offset, offset + 512), kind) {
        Err(ErrorKind::InvalidFormatting)
    } else {
        Ok(fkp_runs(word.subrange(offset, offset + 512), kind))
    }
}

/// The runs of BTE entries `k..` appended to `acc`, or the failure kind.
pub open spec fn pages_from(
    word: Seq<u8>,
    d: Seq<u8>,
    k: int,
    acc: Seq<RunSpec>,
    limits: DocLimits,
    kind: FkpKind,
) -> Outcome<Seq<RunSpec>>
    decreases bte_count(d) - k,
{
    if k < 0 || k >= bte_count(d) {
        Ok(acc)
    } else {
        match page_outcome(word, bte_page(d, k), kind) {
            Err(e) => Err(e),
            Ok(r) => if r.len() > 0 && (r[0].0 < le_u32(d, 4 * k) || r.last().1 > le_u32(d, 4 * (k + 1))) {
                Err(ErrorKind::InvalidFormatting)
            } else if acc.len() + r.len() > limits.max_formatting_runs {
                Err(ErrorKind::ResourceLimit)
            } else {
                pages_from(word, d, k + 1, acc + r, limits, kind)
            },
        }
    }
}

/// Whether consecutive runs do not overlap.
pub open spec fn runs_disjoint(r: Seq<RunSpec>) -> bool {
    forall|i: int| 0 <= i < r.len() - 1 ==> #[trigger] r[i].1 <= r[i + 1].0
}

/// The runs of one family located by `location`, or the failure kind.
pub open spec fn kind_outcome(
    location: Option<FcLcb>,
    word: Seq<u8>,
    table: Seq<u8>,
    limits: DocLimits,
    kind: FkpKind,
) -> Outcome<Seq<RunSpec>> {
    if location is None || location.unwrap().length == 0 {
        Ok(seq![])
    } else {
        let l = location.unwrap();
        if l.offset + l.length > table.len() {
            Err(ErrorKind::OutOfBounds)
        } else {
            let d = table.subrange(l.offset as int, l.offset + l.length);
            match bte_failure(d, limits) {
                Some(e) => Err(e),
                None => match pages_from(word, d, 0, seq![], limits, kind) {
                    Err(e) => Err(e),
                    Ok(r) => if runs_disjoint(r) {
                        Ok(r)
                    } else {
                        Err(ErrorKind::InvalidFormatting)
                    },
                },
            }
        }
    }
}

/// Whether consecutive runs do not overlap.
fn runs_are_disjoint(runs: &Vec<FormattingRun>) -> (res: bool)
    ensures
        res == runs_disjoint(runs_spec(runs@)),
{
    let n = runs.len();
    if n == 0 {
        return true;
    }
    let mut i: usize = 0;
    while i + 1 < n
        invariant
            n == runs@.len(),
            n >= 1,
            i + 1 <= n,
            forall|j: int| 0 <= j < i ==> #[trigger] runs_spec(runs@)[j].1 <= runs_spec(runs@)[j + 1].0,
        decreases n - i,
    {
        if runs[i].file_end > runs[i + 1].file_start {
            assert(runs_spec(runs@)[i as int].1 > runs_spec(runs@)[i as int + 1].0);
            return false;
        }
        i = i + 1;
    }
    true
}

/// Parses the runs of one property family.
#[verifier::rlimit(40)]
fn parse_kind(
    location: Option<FcLcb>,
    word_document: &[u8],
    table_stream: &[u8],
    limits: DocLimits,
    kind: FkpKind,
) -> (res: Result<Vec<FormattingRun>>)
    ensures
        match kind_outcome(location, word_document@, table_stream@, limits, kind) {
            Err(e) => res is Err && res->Err_0.kind() == e,
            Ok(r) => res matches Ok(v) && runs_spec(v@) == r,
        },
{
    let loc = match location {
        Some(l) => if l.is_empty() {
            return Ok(Vec::new());
        } else {
            l
        },
        None => {
            return Ok(Vec::new());
        },
    };
    let structure = match kind {
        FkpKind::Character => "PlcBteChpx",
        FkpKind::Paragraph => "PlcBtePapx",
    };
    let plc = checked_slice(table_stream, loc.offset, loc.length, structure)?;
    let entries = parse_bin_table(plc, limits)?;
    let ghost d = plc@;
    let mut result: Vec<FormattingRun> = Vec::new();
    assert(runs_spec(result@) =~= seq![]);
    let mut k: usize = 0;
    while k < entries.len()
        invariant
            d == plc@,
            location == Some(loc),
            loc.length != 0,
            loc.offset + loc.length <= table_stream@.len(),
            d == table_stream@.subrange(loc.offset as int, loc.offset + loc.length),
            bte_failure(d, limits) is None,
            entries@.len() == bte_count(d),
            forall|j: int| 0 <= j < entries@.len() ==> #[trigger] bte_entry_is(entries@[j], d, j),
            k <= entries@.len(),
            result@.len() <= limits.max_formatting_runs,
            pages_from(word_document@, d, 0, seq![], limits, kind) == pages_from(
                word_document@,
                d,
                k as int,
                runs_spec(result@),
                limits,
                kind,
            ),
        decreases entries@.len() - k,
    {
        let entry = entries[k];
        assert(bte_entry_is(entries@[k as int], d, k as int));
        let page_offset = entry.page_number * 512;
        let page = checked_slice(
            word_document,
            page_offset,
            512,
            match kind {
                FkpKind::Character => "ChpxFkp",
                FkpKind::Paragraph => "PapxFkp",
            },
        )?;
        let mut page_runs = match kind {
            FkpKind::Character => parse_chpx_fkp(page)?,
            FkpKind::Paragraph => parse_papx_fkp(page)?,
        };
        let n = page_runs.len();
        if n > 0 && (page_runs[0].file_start < entry.file_start || page_runs[n - 1].file_end > entry.file_end) {
            proof {
                assert(runs_spec(page_runs@)[0] == run_spec(page_runs@[0]));
                assert(runs_spec(page_runs@).last() == run_spec(page_runs@[n - 1]));
            }
            return Err(DocError::InvalidFormatting(message("FKP range escapes its BTE range")));
        }
        if n > limits.max_formatting_runs - result.len() {
            return Err(
                DocError::ResourceLimit {
                    resource: "formatting-run",
                    actual: (result.len() as u64).wrapping_add(n as u64),
                    limit: limits.max_formatting_runs as u64,
                },
            );
        }
        proof {
            if n > 0 {
                assert(runs_spec(page_runs@)[0] == run_spec(page_runs@[0]));
                assert(runs_spec(page_runs@).last() == run_spec(page_runs@[n - 1]));
            }
        }
        let ghost before = runs_spec(result@);
        let ghost added = runs_spec(page_runs@);
        result.append(&mut page_runs);
        assert(runs_spec(result@) =~= before + added);
        k = k + 1;
    }
    if !runs_are_disjoint(&result) {
        return Err(DocError::InvalidFormatting(message("FKP ranges overlap")));
    }
    Ok(result)
}

/// What `FormattingIndex::parse` gives.
pub open spec fn formatting_index_result(
    fib: Fib,
    word: Seq<u8>,
    table: Seq<u8>,
    limits: DocLimits,
    res: Result<FormattingIndex>,
) -> bool {
    match kind_outcome(fib.locations.spec_get(INDEX_PLCF_BTE_CHPX), word, table, limits, FkpKind::Character) {
        Err(e) => res is Err && res->Err_0.kind() == e,
        Ok(c) => match kind_outcome(fib.locations.spec_get(INDEX_PLCF_BTE_PAPX), word, table, limits, FkpKind::Paragraph) {
            Err(e) => res is Err && res->Err_0.kind() == e,
            Ok(p) => res matches Ok(x) && runs_spec(x.character_runs@) == c && runs_spec(x.paragraph_runs@) == p,
        },
    }
}

impl FormattingIndex {
    /// Parses the character and paragraph BTE/FKP structures referenced by FIB.
    pub fn parse(fib: &Fib, word_document: &[u8], table_stream: &[u8], limits: DocLimits) -> (res: Result<Self>)
        ensures
            formatting_index_result(*fib, word_document@, table_stream@, limits, res),
    {
        let character_runs = parse_kind(
            fib.locations.character_bte(),
            word_document,
            table_stream,
            limits,
            FkpKind::Character,
        )?;
        let paragraph_runs = parse_kind(
            fib.locations.paragraph_bte(),
            word_document,
            table_stream,
            limits,
            FkpKind::Paragraph,
        )?;
        Ok(FormattingIndex { character_runs, paragraph_runs })
    }
}


// ---- Logical runs.

/// One formatting run converted from a physical FC range into a logical CP range.
#[derive(Debug, Clone, PartialEq, Eq)]
pub struct LogicalFormattingRun {
    /// Inclusive global character position.
    pub cp_start: u32,
    /// Exclusive global character position.
    pub cp_end: u32,
    /// Physical byte start retained for diagnostics and structural oracles.
    pub file_start: u32,
    /// Physical byte end retained for diagnostics and structural oracles.
    pub file_end: u32,
    /// Paragraph style index for PAPX runs.
    pub paragraph_style: Option<u16>,
    /// Direct properties stored in the FKP run.
    pub grpprl: Vec<u8>,
    /// Piece-level PRM that is applied after FKP direct properties.
    pub piece_prm: u16,
}

/// Character and paragraph formatting in logical document order.
#[derive(Debug, Clone, PartialEq, Eq)]
pub struct LogicalFormattingIndex {
    /// CHPX runs split at text-piece boundaries.
    pub character_runs: Vec<LogicalFormattingRun>,
    /// PAPX runs split at text-piece boundaries.
    pub paragraph_runs: Vec<LogicalFormattingRun>,
}

/// A logical run as plain values: `(cp_start, cp_end, file_start, file_end,
/// paragraph_style, grpprl, piece_prm)`.
pub type LogicalSpec = (u32, u32, u32, u32, Option<u16>, Seq<u8>, u16);

/// The plain values of `r`.
pub open spec fn lrun_spec(r: LogicalFormattingRun) -> LogicalSpec {
    (r.cp_start, r.cp_end, r.file_start, r.file_end, r.paragraph_style, r.grpprl@, r.piece_prm)
}

/// The plain values of `v`.
pub open spec fn lruns_spec(v: Seq<LogicalFormattingRun>) -> Seq<LogicalSpec> {
    v.map_values(|r: LogicalFormattingRun| lrun_spec(r))
}

impl LogicalFormattingRun {
    /// A copy with equal fields and bytes.
    pub fn duplicate(&self) -> (res: Self)
        ensures
            lrun_spec(res) == lrun_spec(*self),
    {
        LogicalFormattingRun {
            cp_start: self.cp_start,
            cp_end: self.cp_end,
            file_start: self.file_start,
            file_end: self.file_end,
            paragraph_style: self.paragraph_style,
            grpprl: self.grpprl.clone(),
            piece_prm: self.piece_prm,
        }
    }
}

/// Index of the first run from `i` that ends after `offset`.
pub open spec fn first_ending_after(runs: Seq<RunSpec>, offset: u32, i: int) -> int
    decreases runs.len() - i,
{
    if i < 0 || i >= runs.len() {
        runs.len() as int
    } else if runs[i].1 > offset {
        i
    } else {
        first_ending_after(runs, offset, i + 1)
    }
}

/// The logical run of the part `[fs, fe)` of run `r` inside piece `p`, or the
/// failure kind: it must not cut a UTF-16 unit, and its CPs must fit.
pub open spec fn intersection(p: TextPiece, r: RunSpec, fs: u32, fe: u32) -> Outcome<LogicalSpec> {
    let b = spec_bytes_per_cp(p.encoding);
    let rs = fs - p.file_offset;
    let re = fe - p.file_offset;
    if rs % b != 0 || re % b != 0 {
        Err(ErrorKind::InvalidFormatting)
    } else if p.cp_start + rs / b > u32::MAX || p.cp_start + re / b > u32::MAX {
        Err(ErrorKind::InvalidFormatting)
    } else {
        Ok(((p.cp_start + rs / b) as u32, (p.cp_start + re / b) as u32, fs, fe, r.2, r.3, p.prm))
    }
}

/// The logical runs of piece `p` (ending at FC `end`) from run `i` on, or the failure kind.
pub open spec fn piece_runs(runs: Seq<RunSpec>, p: TextPiece, end: u32, i: int) -> Outcome<Seq<LogicalSpec>>
    decreases runs.len() - i,
{
    if i < 0 || i >= runs.len() || runs[i].0 >= end {
        Ok(seq![])
    } else {
        let fs = if runs[i].0 > p.file_offset {
            runs[i].0
        } else {
            p.file_offset
        };
        let fe = if runs[i].1 < end {
            runs[i].1
        } else {
            end
        };
        if fs < fe {
            match intersection(p, runs[i], fs, fe) {
                Err(e) => Err(e),
                Ok(x) => match piece_runs(runs, p, end, i + 1) {
                    Err(e) => Err(e),
                    Ok(rest) => Ok(seq![x] + rest),
                },
            }
        } else {
            piece_runs(runs, p, end, i + 1)
        }
    }
}

/// The logical runs of the first `k` pieces, or the failure kind.
pub open spec fn mapped_runs(runs: Seq<RunSpec>, pieces: Seq<TextPiece>, k: int) -> Outcome<Seq<LogicalSpec>>
    decreases k,
{
    if k <= 0 {
        Ok(seq![])
    } else {
        match mapped_runs(runs, pieces, k - 1) {
            Err(e) => Err(e),
            Ok(acc) => {
                let p = pieces[k - 1];
                let end = p.file_offset + cp_bytes(p.encoding, p.cp_end - p.cp_start);
                if end > u32::MAX {
                    Err(ErrorKind::InvalidPieceTable)
                } else {
                    match piece_runs(runs, p, end as u32, first_ending_after(runs, p.file_offset, 0)) {
                        Err(e) => Err(e),
                        Ok(r) => Ok(acc + r),
                    }
                }
            },
        }
    }
}

/// Maps the part `[file_start, file_end)` of `run` inside `piece` to CPs.
fn map_intersection(piece: TextPiece, run: &FormattingRun, file_start: u32, file_end: u32) -> (res: Result<
    LogicalFormattingRun,
>)
    requires
        piece.file_offset <= file_start <= file_end,
    ensures
        match intersection(piece, run_spec(*run), file_start, file_end) {
            Err(e) => res is Err && res->Err_0.kind() == e,
            Ok(x) => res matches Ok(v) && lrun_spec(v) == x,
        },
{
    let bytes_per_cp = piece.bytes_per_cp();
    let relative_start = file_start - piece.file_offset;
    let relative_end = file_end - piece.file_offset;
    if relative_start % bytes_per_cp != 0 || relative_end % bytes_per_cp != 0 {
        return Err(DocError::InvalidFormatting(message("FKP range cuts through a UTF-16 text piece")));
    }
    if relative_start / bytes_per_cp > u32::MAX - piece.cp_start {
        return Err(DocError::InvalidFormatting(message("logical run CP start overflow")));
    }
    if relative_end / bytes_per_cp > u32::MAX - piece.cp_start {
        return Err(DocError::InvalidFormatting(message("logical run CP end overflow")));
    }
    Ok(
        LogicalFormattingRun {
            cp_start: piece.cp_start + relative_start / bytes_per_cp,
            cp_end: piece.cp_start + relative_end / bytes_per_cp,
            file_start,
            file_end,
            paragraph_style: run.paragraph_style,
            grpprl: run.grpprl.clone(),
            piece_prm: piece.prm,
        },
    )
}

/// Index of the first run that ends after `offset`.
fn first_run_ending_after(runs: &[FormattingRun], offset: u32) -> (res: usize)
    ensures
        res == first_ending_after(runs_spec(runs@), offset, 0),
        res <= runs@.len(),
{
    let mut i: usize = 0;
    while i < runs.len()
        invariant
            i <= runs@.len(),
            first_ending_after(runs_spec(runs@), offset, 0) == first_ending_after(runs_spec(runs@), offset, i as int),
        decreases runs@.len() - i,
    {
        if runs[i].file_end > offset {
            return i;
        }
        i = i + 1;
    }
    i
}

/// Maps physical runs onto the pieces, splitting at piece boundaries.
#[verifier::rlimit(40)]
fn map_runs(runs: &[FormattingRun], pieces: &[TextPiece]) -> (res: Result<Vec<LogicalFormattingRun>>)
    requires
        forall|k: int| 0 <= k < pieces@.len() ==> (#[trigger] pieces@[k]).cp_start <= pieces@[k].cp_end,
    ensures
        match mapped_runs(runs_spec(runs@), pieces@, pieces@.len() as int) {
            Err(e) => res is Err && res->Err_0.kind() == e,
            Ok(r) => res matches Ok(v) && lruns_spec(v@) == r,
        },
{
    let ghost rs = runs_spec(runs@);
    let mut logical: Vec<LogicalFormattingRun> = Vec::new();
    assert(lruns_spec(logical@) =~= seq![]);
    let mut k: usize = 0;
    while k < pieces.len()
        invariant
            rs == runs_spec(runs@),
            forall|j: int| 0 <= j < pieces@.len() ==> (#[trigger] pieces@[j]).cp_start <= pieces@[j].cp_end,
            k <= pieces@.len(),
            mapped_runs(rs, pieces@, k as int) == Outcome::<Seq<LogicalSpec>>::Ok(lruns_spec(logical@)),
        decreases pieces@.len() - k,
    {
        let piece = pieces[k];
        assert(pieces@[k as int].cp_start <= pieces@[k as int].cp_end);
        let piece_end = match piece.file_end() {
            Ok(e) => e,
            Err(e) => {
                proof {
                    lemma_mapped_runs_fail(rs, pieces@, k as int + 1, pieces@.len() as int);
                }
                return Err(e);
            },
        };
        let mut run_index = first_run_ending_after(runs, piece.file_offset);
        let ghost start = run_index as int;
        let ghost acc = lruns_spec(logical@);
        while run_index < runs.len() && runs[run_index].file_start < piece_end
            invariant
                rs == runs_spec(runs@),
                k < pieces@.len(),
                piece == pieces@[k as int],
                piece_end == piece.file_offset + cp_bytes(piece.encoding, piece.cp_end - piece.cp_start),
                start == first_ending_after(rs, piece.file_offset, 0),
                mapped_runs(rs, pieces@, k as int) == Outcome::<Seq<LogicalSpec>>::Ok(acc),
                acc == lruns_spec(logical@).take(acc.len() as int),
                acc.len() <= lruns_spec(logical@).len(),
                start <= run_index <= runs@.len(),
                piece_runs(rs, piece, piece_end, start) is Ok ==> (piece_runs(rs, piece, piece_end, run_index as int) is Ok
                    && piece_runs(rs, piece, piece_end, start)->Ok_0 == lruns_spec(logical@).skip(acc.len() as int)
                    + piece_runs(rs, piece, piece_end, run_index as int)->Ok_0),
                piece_runs(rs, piece, piece_end, start) is Err ==> piece_runs(rs, piece, piece_end, run_index as int)
                    == piece_runs(rs, piece, piece_end, start),
            decreases runs@.len() - run_index,
        {
            let run = &runs[run_index];
            let file_start = if run.file_start > piece.file_offset {
                run.file_start
            } else {
                piece.file_offset
            };
            let file_end = if run.file_end < piece_end {
                run.file_end
            } else {
                piece_end
            };
            if file_start < file_end {
                let mapped = match map_intersection(piece, run, file_start, file_end) {
                    Ok(m) => m,
                    Err(e) => {
                        proof {
                            assert(piece_runs(rs, piece, piece_end, run_index as int) is Err);
                            lemma_mapped_runs_fail(rs, pieces@, k as int + 1, pieces@.len() as int);
                        }
                        return Err(e);
                    },
                };
                let ghost before = lruns_spec(logical@);
                logical.push(mapped);
                proof {
                    assert(lruns_spec(logical@) =~= before.push(lrun_spec(mapped)));
                    assert(acc =~= lruns_spec(logical@).take(acc.len() as int));
                    if piece_runs(rs, piece, piece_end, start) is Ok {
                        assert(lruns_spec(logical@).skip(acc.len() as int) =~= before.skip(acc.len() as int).push(
                            lrun_spec(mapped),
                        ));
                    }
                }
            }
            run_index = run_index + 1;
        }
        proof {
            assert(piece_runs(rs, piece, piece_end, run_index as int) == Outcome::<Seq<LogicalSpec>>::Ok(seq![]));
            assert(lruns_spec(logical@) =~= acc + lruns_spec(logical@).skip(acc.len() as int));
        }
        k = k + 1;
    }
    Ok(logical)
}

/// A failure among the first `k` pieces is the failure of all `n`.
proof fn lemma_mapped_runs_fail(runs: Seq<RunSpec>, pieces: Seq<TextPiece>, k: int, n: int)
    requires
        1 <= k <= n,
        mapped_runs(runs, pieces, k) is Err,
    ensures
        mapped_runs(runs, pieces, n) == mapped_runs(runs, pieces, k),
    decreases n - k,
{
    if n > k {
        lemma_mapped_runs_fail(runs, pieces, k, n - 1);
    }
}

impl FormattingIndex {
    /// Converts physical FKP ranges to source-aligned logical CP ranges,
    /// splitting runs at piece boundaries; gaps in physical storage are skipped.
    pub fn to_logical(&self, pieces: &PieceTable) -> (res: Result<LogicalFormattingIndex>)
        requires
            pieces.wf(),
        ensures
            match mapped_runs(runs_spec(self.character_runs@), pieces.spec_pieces(), pieces.spec_pieces().len() as int) {
                Err(e) => res is Err && res->Err_0.kind() == e,
                Ok(c) => match mapped_runs(
                    runs_spec(self.paragraph_runs@),
                    pieces.spec_pieces(),
                    pieces.spec_pieces().len() as int,
                ) {
                    Err(e) => res is Err && res->Err_0.kind() == e,
                    Ok(p) => res matches Ok(x) && lruns_spec(x.character_runs@) == c && lruns_spec(x.paragraph_runs@)
                        == p,
                },
            },
    {
        let list = pieces.pieces();
        assert forall|k: int| 0 <= k < list@.len() implies (#[trigger] list@[k]).cp_start <= list@[k].cp_end by {
            assert(list@[k].cp_start < list@[k].cp_end);
        }
        let character_runs = map_runs(self.character_runs.as_slice(), list)?;
        let paragraph_runs = map_runs(self.paragraph_runs.as_slice(), list)?;
        Ok(LogicalFormattingIndex { character_runs, paragraph_runs })
    }
}

// ---- Decoding run properties.

/// The frames of a run's `grpprl`; for PAPX runs one trailing zero alignment
/// byte is accepted after complete frames.
pub open spec fn run_frames(g: Seq<u8>, papx: bool) -> Option<Seq<(u16, Seq<u8>)>> {
    match grpprl_frames(g, 0) {
        Some(f) => Some(f),
        None => if papx && g.len() > 0 && g.last() == 0 {
            grpprl_frames(g.drop_last(), 0)
        } else {
            None
        },
    }
}

/// Decodes a logical run's `grpprl`; `kind` is `"PAPX"` or `"CHPX"`.
pub fn decode_formatting_run(run: &LogicalFormattingRun, kind: &str) -> (res: Result<Vec<Sprm>>)
    ensures
        res is Ok <==> run_frames(run.grpprl@, kind@ == "PAPX"@) is Some,
        res matches Ok(v) ==> sprms_are_frames(v@, run_frames(run.grpprl@, kind@ == "PAPX"@).unwrap()),
        res is Err ==> res->Err_0.kind() == ErrorKind::InvalidFormatting,
{
    match decode_grpprl(run.grpprl.as_slice()) {
        Ok(v) => Ok(v),
        Err(e) => {
            let n = run.grpprl.len();
            if crate::document::str_equal(kind, "PAPX") && n > 0 && run.grpprl[n - 1] == 0 {
                let (head, _) = run.grpprl.as_slice().split_at(n - 1);
                assert(head@ =~= run.grpprl@.drop_last());
                match decode_grpprl(head) {
                    Ok(v) => Ok(v),
                    Err(_) => Err(DocError::InvalidFormatting(message("PAPX run has a malformed grpprl"))),
                }
            } else {
                Err(DocError::InvalidFormatting(message("formatting run has a malformed grpprl")))
            }
        },
    }
}


// ---- Semantic runs.

/// One logical character run with FKP and piece properties applied in order.
#[derive(Debug, Clone, PartialEq, Eq)]
pub struct SemanticCharacterRun {
    /// Source-backed CP/FC range and raw direct formatting.
    pub source: LogicalFormattingRun,
    /// Resolved PCD modifier, including unresolved compact values.
    pub piece_modifier: PiecePropertyModifier,
    /// FKP character SPRMs followed by applicable piece SPRMs.
    pub sprms: Vec<Sprm>,
    /// Known typed direct properties; style-relative toggles stay unresolved.
    pub properties: CharacterPropertyDelta,
}

/// One logical paragraph run with FKP and piece properties applied in order.
#[derive(Debug, Clone, PartialEq, Eq)]
pub struct SemanticParagraphRun {
    /// Source-backed CP/FC range, paragraph style index, and raw formatting.
    pub source: LogicalFormattingRun,
    /// Resolved PCD modifier, including unresolved compact values.
    pub piece_modifier: PiecePropertyModifier,
    /// FKP paragraph SPRMs followed by applicable piece SPRMs.
    pub sprms: Vec<Sprm>,
    /// Known typed direct paragraph properties.
    pub properties: ParagraphPropertyDelta,
}

/// Typed direct formatting in logical source order.
#[derive(Debug, Clone, PartialEq, Eq)]
pub struct SemanticFormattingIndex {
    pub character_runs: Vec<SemanticCharacterRun>,
    pub paragraph_runs: Vec<SemanticParagraphRun>,
}

/// Whether `sprms` are the frames of `g` (PAPX tolerance per `papx`) followed by
/// the contribution of modifier `m` to `group`.
pub open spec fn run_sprms(sprms: Seq<Sprm>, g: Seq<u8>, papx: bool, m: PiecePropertyModifier, group: PropertyGroup) -> bool {
    let f = run_frames(g, papx);
    &&& f is Some
    &&& sprms.len() >= f.unwrap().len()
    &&& sprms_are_frames(sprms.take(f.unwrap().len() as int), f.unwrap())
    &&& modifier_contributes(m, group, sprms.skip(f.unwrap().len() as int))
}

/// Whether `out` is character run `input` with its piece modifier and properties resolved.
pub open spec fn character_run_resolved(out: SemanticCharacterRun, input: LogicalSpec, pt: PieceTable) -> bool {
    &&& lrun_spec(out.source) == input
    &&& prm_resolved(pt, input.6, Ok(out.piece_modifier))
    &&& run_sprms(out.sprms@, input.5, false, out.piece_modifier, PropertyGroup::Character)
    &&& character_fields_match(out.properties, out.sprms@, out.sprms@.len() as int)
}

/// Whether `out` is paragraph run `input` with its piece modifier and properties resolved.
pub open spec fn paragraph_run_resolved(out: SemanticParagraphRun, input: LogicalSpec, pt: PieceTable) -> bool {
    &&& lrun_spec(out.source) == input
    &&& prm_resolved(pt, input.6, Ok(out.piece_modifier))
    &&& run_sprms(out.sprms@, input.5, true, out.piece_modifier, PropertyGroup::Paragraph)
    &&& paragraph_fields_match(out.properties, out.sprms@, out.sprms@.len() as int)
}

/// Whether two records have the same family, opcode and operand bytes.
pub open spec fn sprm_agree(a: Sprm, b: Sprm) -> bool {
    a.opcode == b.opcode && a.group == b.group && a.operand@ == b.operand@
}

/// Whether two record lists agree record by record.
pub open spec fn sprms_agree(a: Seq<Sprm>, b: Seq<Sprm>) -> bool {
    &&& a.len() == b.len()
    &&& forall|i: int| 0 <= i < a.len() ==> #[trigger] sprm_agree(a[i], b[i])
}

/// Whether character run `input` resolves: its piece `Prm` resolves, its
/// `grpprl` decodes, and every resulting character operand is valid.
pub open spec fn character_run_resolves(input: LogicalSpec, pt: PieceTable) -> bool {
    exists|m: PiecePropertyModifier, s: Seq<Sprm>|
        #![trigger prm_resolved(pt, input.6, Ok(m)), run_sprms(s, input.5, false, m, PropertyGroup::Character)]
        prm_resolved(pt, input.6, Ok(m)) && run_sprms(s, input.5, false, m, PropertyGroup::Character) && (forall|i: int|
            0 <= i < s.len() ==> #[trigger] character_sprm_ok(s[i]))
}

/// Whether paragraph run `input` resolves: its piece `Prm` resolves, its
/// `grpprl` decodes, and every resulting paragraph operand is valid.
pub open spec fn paragraph_run_resolves(input: LogicalSpec, pt: PieceTable) -> bool {
    exists|m: PiecePropertyModifier, s: Seq<Sprm>|
        #![trigger prm_resolved(pt, input.6, Ok(m)), run_sprms(s, input.5, true, m, PropertyGroup::Paragraph)]
        prm_resolved(pt, input.6, Ok(m)) && run_sprms(s, input.5, true, m, PropertyGroup::Paragraph) && (forall|i: int|
            0 <= i < s.len() ==> #[trigger] paragraph_sprm_ok(s[i]))
}

/// Whether every run of `idx` resolves against piece table `pt`.
pub open spec fn index_resolves(idx: LogicalFormattingIndex, pt: PieceTable) -> bool {
    &&& forall|k: int|
        0 <= k < idx.character_runs@.len() ==> #[trigger] character_run_resolves(lrun_spec(idx.character_runs@[k]), pt)
    &&& forall|k: int|
        0 <= k < idx.paragraph_runs@.len() ==> #[trigger] paragraph_run_resolves(lrun_spec(idx.paragraph_runs@[k]), pt)
}

/// Records of one family taken from agreeing lists agree.
proof fn lemma_group_agree(a: Seq<Sprm>, b: Seq<Sprm>, group: PropertyGroup)
    requires
        sprms_agree(a, b),
    ensures
        sprms_agree(
            crate::piece_table::sprms_in_group(a, group),
            crate::piece_table::sprms_in_group(b, group),
        ),
    decreases a.len(),
{
    reveal(Seq::filter);
    if a.len() > 0 {
        assert(sprm_agree(a[a.len() - 1], b[b.len() - 1]));
        assert forall|i: int| 0 <= i < a.drop_last().len() implies #[trigger] sprm_agree(a.drop_last()[i], b.drop_last()[i]) by {
            assert(sprm_agree(a[i], b[i]));
        }
        lemma_group_agree(a.drop_last(), b.drop_last(), group);
        let fa = crate::piece_table::sprms_in_group(a.drop_last(), group);
        let fb = crate::piece_table::sprms_in_group(b.drop_last(), group);
        if a.last().group == group {
            assert(crate::piece_table::sprms_in_group(a, group) == fa.push(a.last()));
            assert(crate::piece_table::sprms_in_group(b, group) == fb.push(b.last()));
            let ra = fa.push(a.last());
            let rb = fb.push(b.last());
            assert forall|i: int| 0 <= i < ra.len() implies #[trigger] sprm_agree(ra[i], rb[i]) by {
                if i < fa.len() {
                    assert(sprm_agree(fa[i], fb[i]));
                }
            }
        } else {
            assert(crate::piece_table::sprms_in_group(a, group) == fa);
            assert(crate::piece_table::sprms_in_group(b, group) == fb);
        }
    }
}

/// Two resolutions of one run give agreeing records.
proof fn lemma_run_sprms_agree(
    pt: PieceTable,
    raw: u16,
    m1: PiecePropertyModifier,
    m2: PiecePropertyModifier,
    s1: Seq<Sprm>,
    s2: Seq<Sprm>,
    g: Seq<u8>,
    papx: bool,
    group: PropertyGroup,
)
    requires
        prm_resolved(pt, raw, Ok(m1)),
        prm_resolved(pt, raw, Ok(m2)),
        run_sprms(s1, g, papx, m1, group),
        run_sprms(s2, g, papx, m2, group),
    ensures
        sprms_agree(s1, s2),
{
    let f = run_frames(g, papx).unwrap();
    let n = f.len() as int;
    let r1 = s1.skip(n);
    let r2 = s2.skip(n);
    assert(sprms_agree(r1, r2)) by {
        if raw % 2 == 1 {
            let index = raw / 2;
            let frames = grpprl_frames(pt.spec_groups()[index as int], 0).unwrap();
            match (m1, m2) {
                (PiecePropertyModifier::Complex { sprms: a, .. }, PiecePropertyModifier::Complex { sprms: b, .. }) => {
                    assert(sprms_are_frames(a@, frames));
                    assert(sprms_are_frames(b@, frames));
                    assert forall|i: int| 0 <= i < a@.len() implies #[trigger] sprm_agree(a@[i], b@[i]) by {
                        assert(a@[i].is_frame(frames[i]));
                        assert(b@[i].is_frame(frames[i]));
                    }
                    lemma_group_agree(a@, b@, group);
                    let ga = crate::piece_table::sprms_in_group(a@, group);
                    let gb = crate::piece_table::sprms_in_group(b@, group);
                    assert forall|i: int| 0 <= i < r1.len() implies #[trigger] sprm_agree(r1[i], r2[i]) by {
                        assert(same_sprm(r1[i], ga[i]));
                        assert(same_sprm(r2[i], gb[i]));
                        assert(sprm_agree(ga[i], gb[i]));
                    }
                },
                _ => {},
            }
        } else {
            match (m1, m2) {
                (
                    PiecePropertyModifier::Simple { sprm: Some(x1), .. },
                    PiecePropertyModifier::Simple { sprm: Some(x2), .. },
                ) => {
                    if x1.group == group {
                        assert(seq![x1][0] == x1);
                        assert(seq![x2][0] == x2);
                        assert(same_sprm(r1[0], seq![x1][0]));
                        assert(same_sprm(r2[0], seq![x2][0]));
                        assert forall|i: int| 0 <= i < r1.len() implies #[trigger] sprm_agree(r1[i], r2[i]) by {}
                    }
                },
                _ => {},
            }
        }
    }
    assert forall|i: int| 0 <= i < s1.len() implies #[trigger] sprm_agree(s1[i], s2[i]) by {
        if i < n {
            assert(s1.take(n)[i] == s1[i]);
            assert(s2.take(n)[i] == s2[i]);
            assert(s1.take(n)[i].is_frame(f[i]));
            assert(s2.take(n)[i].is_frame(f[i]));
        } else {
            assert(r1[i - n] == s1[i]);
            assert(r2[i - n] == s2[i]);
            assert(sprm_agree(r1[i - n], r2[i - n]));
        }
    }
}

/// A character run whose resolution meets an invalid operand does not resolve.
proof fn lemma_character_run_fails(input: LogicalSpec, pt: PieceTable, m: PiecePropertyModifier, s: Seq<Sprm>)
    requires
        prm_resolved(pt, input.6, Ok(m)),
        run_sprms(s, input.5, false, m, PropertyGroup::Character),
        !(forall|i: int| 0 <= i < s.len() ==> #[trigger] character_sprm_ok(s[i])),
    ensures
        !character_run_resolves(input, pt),
{
    let i = choose|i: int| 0 <= i < s.len() && !character_sprm_ok(s[i]);
    assert forall|m2: PiecePropertyModifier, s2: Seq<Sprm>|
        prm_resolved(pt, input.6, Ok(m2)) && run_sprms(s2, input.5, false, m2, PropertyGroup::Character) implies !(
    forall|j: int| 0 <= j < s2.len() ==> #[trigger] character_sprm_ok(s2[j])) by {
        lemma_run_sprms_agree(pt, input.6, m, m2, s, s2, input.5, false, PropertyGroup::Character);
        assert(sprm_agree(s[i], s2[i]));
        assert(!character_sprm_ok(s2[i]));
    }
}

/// A paragraph run whose resolution meets an invalid operand does not resolve.
proof fn lemma_paragraph_run_fails(input: LogicalSpec, pt: PieceTable, m: PiecePropertyModifier, s: Seq<Sprm>)
    requires
        prm_resolved(pt, input.6, Ok(m)),
        run_sprms(s, input.5, true, m, PropertyGroup::Paragraph),
        !(forall|i: int| 0 <= i < s.len() ==> #[trigger] paragraph_sprm_ok(s[i])),
    ensures
        !paragraph_run_resolves(input, pt),
{
    let i = choose|i: int| 0 <= i < s.len() && !paragraph_sprm_ok(s[i]);
    assert forall|m2: PiecePropertyModifier, s2: Seq<Sprm>|
        prm_resolved(pt, input.6, Ok(m2)) && run_sprms(s2, input.5, true, m2, PropertyGroup::Paragraph) implies !(
    forall|j: int| 0 <= j < s2.len() ==> #[trigger] paragraph_sprm_ok(s2[j])) by {
        lemma_run_sprms_agree(pt, input.6, m, m2, s, s2, input.5, true, PropertyGroup::Paragraph);
        assert(sprm_agree(s[i], s2[i]));
        assert(!paragraph_sprm_ok(s2[i]));
    }
}

/// Appends the modifier's contribution to decoded frames.
fn extend_with_modifier(sprms: &mut Vec<Sprm>, modifier: &PiecePropertyModifier, group: PropertyGroup)
    ensures
        final(sprms)@.take(old(sprms)@.len() as int) == old(sprms)@,
        final(sprms)@.len() >= old(sprms)@.len(),
        modifier_contributes(*modifier, group, final(sprms)@.skip(old(sprms)@.len() as int)),
{
    let mut extra = modifier.sprms_for(group);
    let ghost before = sprms@;
    let ghost added = extra@;
    sprms.append(&mut extra);
    assert(sprms@.take(before.len() as int) =~= before);
    assert(sprms@.skip(before.len() as int) =~= added);
}

impl LogicalFormattingIndex {
    /// Applies each piece's `Prm` after its FKP modifiers and derives typed
    /// character/paragraph property deltas without resolving STSH inheritance.
    pub fn resolve_properties(&self, pieces: &PieceTable) -> (res: Result<SemanticFormattingIndex>)
        ensures
            res is Ok <==> index_resolves(*self, *pieces),
            res matches Ok(r) ==> {
                &&& r.character_runs@.len() == self.character_runs@.len()
                &&& r.paragraph_runs@.len() == self.paragraph_runs@.len()
                &&& forall|k: int|
                    0 <= k < r.character_runs@.len() ==> #[trigger] character_run_resolved(
                        r.character_runs@[k],
                        lrun_spec(self.character_runs@[k]),
                        *pieces,
                    )
                &&& forall|k: int|
                    0 <= k < r.paragraph_runs@.len() ==> #[trigger] paragraph_run_resolved(
                        r.paragraph_runs@[k],
                        lrun_spec(self.paragraph_runs@[k]),
                        *pieces,
                    )
            },
            res is Err ==> res->Err_0.kind() == ErrorKind::InvalidPieceTable || res->Err_0.kind()
                == ErrorKind::InvalidFormatting,
    {
        proof {
            reveal_strlit("CHPX");
            reveal_strlit("PAPX");
            assert("CHPX"@ != "PAPX"@) by {
                assert("CHPX"@[0] != "PAPX"@[0]);
            }
        }
        let mut character_runs: Vec<SemanticCharacterRun> = Vec::new();
        let mut k: usize = 0;
        while k < self.character_runs.len()
            invariant
                k <= self.character_runs@.len(),
                character_runs@.len() == k,
                "CHPX"@ != "PAPX"@,
                forall|j: int|
                    0 <= j < k ==> #[trigger] character_run_resolved(character_runs@[j], lrun_spec(self.character_runs@[j]), *pieces),
                forall|j: int| 0 <= j < k ==> #[trigger] character_run_resolves(lrun_spec(self.character_runs@[j]), *pieces),
            decreases self.character_runs@.len() - k,
        {
            let run = &self.character_runs[k];
            let ghost input = lrun_spec(self.character_runs@[k as int]);
            let modifier = match pieces.resolve_prm(run.piece_prm) {
                Ok(m) => m,
                Err(e) => {
                    assert(!character_run_resolves(input, *pieces));
                    return Err(e);
                },
            };
            let mut sprms = match decode_formatting_run(run, "CHPX") {
                Ok(v) => v,
                Err(e) => {
                    assert(!character_run_resolves(input, *pieces));
                    return Err(e);
                },
            };
            extend_with_modifier(&mut sprms, &modifier, PropertyGroup::Character);
            assert(run_sprms(sprms@, input.5, false, modifier, PropertyGroup::Character));
            let properties = match apply_character_sprms(sprms.as_slice()) {
                Ok(p) => p,
                Err(e) => {
                    proof {
                        lemma_character_run_fails(input, *pieces, modifier, sprms@);
                    }
                    return Err(e);
                },
            };
            assert(prm_resolved(*pieces, input.6, Ok(modifier)));
            assert(character_run_resolves(input, *pieces));
            character_runs.push(SemanticCharacterRun { source: run.duplicate(), piece_modifier: modifier, sprms, properties });
            k = k + 1;
        }
        let mut paragraph_runs: Vec<SemanticParagraphRun> = Vec::new();
        let mut k: usize = 0;
        while k < self.paragraph_runs.len()
            invariant
                k <= self.paragraph_runs@.len(),
                paragraph_runs@.len() == k,
                "CHPX"@ != "PAPX"@,
                forall|j: int|
                    0 <= j < self.character_runs@.len() ==> #[trigger] character_run_resolves(
                        lrun_spec(self.character_runs@[j]),
                        *pieces,
                    ),
                forall|j: int|
                    0 <= j < k ==> #[trigger] paragraph_run_resolved(paragraph_runs@[j], lrun_spec(self.paragraph_runs@[j]), *pieces),
                forall|j: int| 0 <= j < k ==> #[trigger] paragraph_run_resolves(lrun_spec(self.paragraph_runs@[j]), *pieces),
            decreases self.paragraph_runs@.len() - k,
        {
            let run = &self.paragraph_runs[k];
            let ghost input = lrun_spec(self.paragraph_runs@[k as int]);
            let modifier = match pieces.resolve_prm(run.piece_prm) {
                Ok(m) => m,
                Err(e) => {
                    assert(!paragraph_run_resolves(input, *pieces));
                    return Err(e);
                },
            };
            let mut sprms = match decode_formatting_run(run, "PAPX") {
                Ok(v) => v,
                Err(e) => {
                    assert(!paragraph_run_resolves(input, *pieces));
                    return Err(e);
                },
            };
            extend_with_modifier(&mut sprms, &modifier, PropertyGroup::Paragraph);
            assert(run_sprms(sprms@, input.5, true, modifier, PropertyGroup::Paragraph));
            let properties = match apply_paragraph_sprms(sprms.as_slice()) {
                Ok(p) => p,
                Err(e) => {
                    proof {
                        lemma_paragraph_run_fails(input, *pieces, modifier, sprms@);
                    }
                    return Err(e);
                },
            };
            assert(prm_resolved(*pieces, input.6, Ok(modifier)));
            assert(paragraph_run_resolves(input, *pieces));
            paragraph_runs.push(SemanticParagraphRun { source: run.duplicate(), piece_modifier: modifier, sprms, properties });
            k = k + 1;
        }
        Ok(SemanticFormattingIndex { character_runs, paragraph_runs })
    }
}


// ---- Copies of direct formatting.

/// Whether piece modifiers `a` and `b` hold the same values.
pub open spec fn same_modifier(a: PiecePropertyModifier, b: PiecePropertyModifier) -> bool {
    match (a, b) {
        (PiecePropertyModifier::NoEffect, PiecePropertyModifier::NoEffect) => true,
        (
            PiecePropertyModifier::Simple { isprm: i, value: v, sprm: s },
            PiecePropertyModifier::Simple { isprm: j, value: w, sprm: t },
        ) => i == j && v == w && match (s, t) {
            (None, None) => true,
            (Some(x), Some(y)) => same_sprm(x, y),
            _ => false,
        },
        (
            PiecePropertyModifier::Complex { index: i, sprms: s },
            PiecePropertyModifier::Complex { index: j, sprms: t },
        ) => i == j && same_sprms(s@, t@),
        _ => false,
    }
}

/// Whether tab changes `a` and `b` hold the same values.
pub open spec fn same_tab_change(a: TabChange, b: TabChange) -> bool {
    &&& a.delete_positions_twips@ == b.delete_positions_twips@
    &&& match (a.delete_close_twips, b.delete_close_twips) {
        (None, None) => true,
        (Some(x), Some(y)) => x@ == y@,
        _ => false,
    }
    &&& a.additions@ == b.additions@
    &&& a.extended == b.extended
}

/// Whether character deltas `a` and `b` hold the same values.
pub open spec fn same_character_delta(a: CharacterPropertyDelta, b: CharacterPropertyDelta) -> bool {
    &&& a.unsupported_opcodes@ == b.unsupported_opcodes@
    &&& a.other_group_opcodes@ == b.other_group_opcodes@
    &&& CharacterPropertyDelta {
        unsupported_opcodes: b.unsupported_opcodes,
        other_group_opcodes: b.other_group_opcodes,
        ..a
    } == b
}

/// Whether paragraph deltas `a` and `b` hold the same values.
pub open spec fn same_paragraph_delta(a: ParagraphPropertyDelta, b: ParagraphPropertyDelta) -> bool {
    &&& a.tab_changes@.len() == b.tab_changes@.len()
    &&& forall|i: int| 0 <= i < a.tab_changes@.len() ==> #[trigger] same_tab_change(a.tab_changes@[i], b.tab_changes@[i])
    &&& a.unsupported_opcodes@ == b.unsupported_opcodes@
    &&& a.other_group_opcodes@ == b.other_group_opcodes@
    &&& ParagraphPropertyDelta {
        tab_changes: b.tab_changes,
        unsupported_opcodes: b.unsupported_opcodes,
        other_group_opcodes: b.other_group_opcodes,
        ..a
    } == b
}

/// Whether logical runs `a` and `b` hold the same values.
pub open spec fn same_logical_run(a: LogicalFormattingRun, b: LogicalFormattingRun) -> bool {
    &&& a.grpprl@ == b.grpprl@
    &&& LogicalFormattingRun { grpprl: b.grpprl, ..a } == b
}

/// Whether semantic character runs `a` and `b` hold the same values.
pub open spec fn same_character_run(a: SemanticCharacterRun, b: SemanticCharacterRun) -> bool {
    &&& same_logical_run(a.source, b.source)
    &&& same_modifier(a.piece_modifier, b.piece_modifier)
    &&& same_sprms(a.sprms@, b.sprms@)
    &&& same_character_delta(a.properties, b.properties)
}

/// Whether semantic paragraph runs `a` and `b` hold the same values.
pub open spec fn same_paragraph_run(a: SemanticParagraphRun, b: SemanticParagraphRun) -> bool {
    &&& same_logical_run(a.source, b.source)
    &&& same_modifier(a.piece_modifier, b.piece_modifier)
    &&& same_sprms(a.sprms@, b.sprms@)
    &&& same_paragraph_delta(a.properties, b.properties)
}

/// Whether semantic indexes `a` and `b` hold the same runs, in the same order.
pub open spec fn same_semantic_index(a: SemanticFormattingIndex, b: SemanticFormattingIndex) -> bool {
    &&& a.character_runs@.len() == b.character_runs@.len()
    &&& forall|k: int|
        0 <= k < a.character_runs@.len() ==> #[trigger] same_character_run(a.character_runs@[k], b.character_runs@[k])
    &&& a.paragraph_runs@.len() == b.paragraph_runs@.len()
    &&& forall|k: int|
        0 <= k < a.paragraph_runs@.len() ==> #[trigger] same_paragraph_run(a.paragraph_runs@[k], b.paragraph_runs@[k])
}

/// A copy of a list of SPRMs.
fn copy_sprms(v: &Vec<Sprm>) -> (res: Vec<Sprm>)
    ensures
        same_sprms(res@, v@),
{
    let mut res: Vec<Sprm> = Vec::new();
    append_sprms(&mut res, v);
    proof {
        assert forall|i: int| 0 <= i < res@.len() implies #[trigger] same_sprm(res@[i], v@[i]) by {
            assert(same_sprm(res@[0 + i], v@[i]));
        }
    }
    res
}

/// A copy of a list of 16-bit values.
fn copy_u16s(v: &Vec<u16>) -> (res: Vec<u16>)
    ensures
        res@ == v@,
{
    let mut res: Vec<u16> = Vec::new();
    let mut i: usize = 0;
    while i < v.len()
        invariant
            i <= v@.len(),
            res@ == v@.take(i as int),
        decreases v@.len() - i,
    {
        res.push(v[i]);
        i = i + 1;
        assert(res@ =~= v@.take(i as int));
    }
    assert(v@.take(i as int) =~= v@);
    res
}

/// A copy of a piece modifier.
fn copy_modifier(m: &PiecePropertyModifier) -> (res: PiecePropertyModifier)
    ensures
        same_modifier(res, *m),
{
    match m {
        PiecePropertyModifier::NoEffect => PiecePropertyModifier::NoEffect,
        PiecePropertyModifier::Simple { isprm, value, sprm } => PiecePropertyModifier::Simple {
            isprm: *isprm,
            value: *value,
            sprm: match sprm {
                Some(s) => Some(s.duplicate()),
                None => None,
            },
        },
        PiecePropertyModifier::Complex { index, sprms } => PiecePropertyModifier::Complex {
            index: *index,
            sprms: copy_sprms(sprms),
        },
    }
}

/// A copy of a tab change.
fn copy_tab_change(t: &TabChange) -> (res: TabChange)
    ensures
        same_tab_change(res, *t),
{
    let mut deletes: Vec<i16> = Vec::new();
    let mut i: usize = 0;
    while i < t.delete_positions_twips.len()
        invariant
            i <= t.delete_positions_twips@.len(),
            deletes@ == t.delete_positions_twips@.take(i as int),
        decreases t.delete_positions_twips@.len() - i,
    {
        deletes.push(t.delete_positions_twips[i]);
        i = i + 1;
        assert(deletes@ =~= t.delete_positions_twips@.take(i as int));
    }
    assert(t.delete_positions_twips@.take(i as int) =~= t.delete_positions_twips@);
    let close = match &t.delete_close_twips {
        Some(c) => Some(copy_u16s(c)),
        None => None,
    };
    let mut additions: Vec<TabStop> = Vec::new();
    let mut i: usize = 0;
    while i < t.additions.len()
        invariant
            i <= t.additions@.len(),
            additions@ == t.additions@.take(i as int),
        decreases t.additions@.len() - i,
    {
        additions.push(t.additions[i]);
        i = i + 1;
        assert(additions@ =~= t.additions@.take(i as int));
    }
    assert(t.additions@.take(i as int) =~= t.additions@);
    TabChange { delete_positions_twips: deletes, delete_close_twips: close, additions, extended: t.extended }
}

/// A copy of a character delta.
fn copy_character_delta(d: &CharacterPropertyDelta) -> (res: CharacterPropertyDelta)
    ensures
        same_character_delta(res, *d),
{
    CharacterPropertyDelta {
        unsupported_opcodes: copy_u16s(&d.unsupported_opcodes),
        other_group_opcodes: copy_u16s(&d.other_group_opcodes),
        ..*d
    }
}

/// A copy of a paragraph delta.
fn copy_paragraph_delta(d: &ParagraphPropertyDelta) -> (res: ParagraphPropertyDelta)
    ensures
        same_paragraph_delta(res, *d),
{
    let mut tabs: Vec<TabChange> = Vec::new();
    let mut i: usize = 0;
    while i < d.tab_changes.len()
        invariant
            i <= d.tab_changes@.len(),
            tabs@.len() == i,
            forall|j: int| 0 <= j < i ==> #[trigger] same_tab_change(tabs@[j], d.tab_changes@[j]),
        decreases d.tab_changes@.len() - i,
    {
        tabs.push(copy_tab_change(&d.tab_changes[i]));
        i = i + 1;
    }
    ParagraphPropertyDelta {
        tab_changes: tabs,
        unsupported_opcodes: copy_u16s(&d.unsupported_opcodes),
        other_group_opcodes: copy_u16s(&d.other_group_opcodes),
        ..*d
    }
}

/// A copy of a logical run.
fn copy_logical_run(r: &LogicalFormattingRun) -> (res: LogicalFormattingRun)
    ensures
        same_logical_run(res, *r),
{
    let mut grpprl: Vec<u8> = Vec::new();
    let mut i: usize = 0;
    while i < r.grpprl.len()
        invariant
            i <= r.grpprl@.len(),
            grpprl@ == r.grpprl@.take(i as int),
        decreases r.grpprl@.len() - i,
    {
        grpprl.push(r.grpprl[i]);
        i = i + 1;
        assert(grpprl@ =~= r.grpprl@.take(i as int));
    }
    assert(r.grpprl@.take(i as int) =~= r.grpprl@);
    LogicalFormattingRun { grpprl, ..*r }
}

impl SemanticFormattingIndex {
    /// A copy of this index, run by run.
    pub fn copy(&self) -> (res: SemanticFormattingIndex)
        ensures
            same_semantic_index(res, *self),
    {
        let mut character_runs: Vec<SemanticCharacterRun> = Vec::new();
        let mut k: usize = 0;
        while k < self.character_runs.len()
            invariant
                k <= self.character_runs@.len(),
                character_runs@.len() == k,
                forall|j: int|
                    0 <= j < k ==> #[trigger] same_character_run(character_runs@[j], self.character_runs@[j]),
            decreases self.character_runs@.len() - k,
        {
            let run = &self.character_runs[k];
            character_runs.push(
                SemanticCharacterRun {
                    source: copy_logical_run(&run.source),
                    piece_modifier: copy_modifier(&run.piece_modifier),
                    sprms: copy_sprms(&run.sprms),
                    properties: copy_character_delta(&run.properties),
                },
            );
            k = k + 1;
        }
        let mut paragraph_runs: Vec<SemanticParagraphRun> = Vec::new();
        let mut k: usize = 0;
        while k < self.paragraph_runs.len()
            invariant
                k <= self.paragraph_runs@.len(),
                paragraph_runs@.len() == k,
                forall|j: int|
                    0 <= j < k ==> #[trigger] same_paragraph_run(paragraph_runs@[j], self.paragraph_runs@[j]),
            decreases self.paragraph_runs@.len() - k,
        {
            let run = &self.paragraph_runs[k];
            paragraph_runs.push(
                SemanticParagraphRun {
                    source: copy_logical_run(&run.source),
                    piece_modifier: copy_modifier(&run.piece_modifier),
                    sprms: copy_sprms(&run.sprms),
                    properties: copy_paragraph_delta(&run.properties),
                },
            );
            k = k + 1;
        }
        SemanticFormattingIndex { character_runs, paragraph_runs }
    }
}

// ---- Style-aware runs.

/// One paragraph run after STSH inheritance and direct properties are ordered.
#[derive(Debug, Clone, PartialEq, Eq)]
pub struct StyledParagraphRun {
    /// Index into [`StyledFormattingIndex::direct`] paragraph runs.
    pub direct_run_index: usize,
    pub cp_start: u32,
    pub cp_end: u32,
    pub style_index: Option<u16>,
    /// Default/style modifiers followed by FKP and piece modifiers.
    pub sprms: Vec<Sprm>,
    pub properties: ParagraphPropertyDelta,
}

/// One character run split at paragraph boundaries and fully ordered by source.
#[derive(Debug, Clone, PartialEq, Eq)]
pub struct StyledCharacterRun {
    /// Index into [`StyledFormattingIndex::direct`] character runs.
    pub direct_run_index: usize,
    /// Overlapping styled paragraph run, if formatting tables left a gap.
    pub paragraph_run_index: Option<usize>,
    pub cp_start: u32,
    pub cp_end: u32,
    pub paragraph_style_index: Option<u16>,
    pub character_style_index: Option<u16>,
    /// STSH defaults, paragraph-style character properties, character style,
    /// and direct CHPX/PRM modifiers in normative application order.
    pub sprms: Vec<Sprm>,
    pub properties: CharacterPropertyDelta,
}

/// Direct and style-aware formatting retained together for source diagnostics.
#[derive(Debug, Clone, PartialEq, Eq)]
pub struct StyledFormattingIndex {
    pub direct: SemanticFormattingIndex,
    pub paragraph_runs: Vec<StyledParagraphRun>,
    pub character_runs: Vec<StyledCharacterRun>,
}

/// Whether style `i` exists and has `kind`.
pub open spec fn style_kind_is(sheet: StyleSheet, i: u16, kind: StyleKind) -> bool {
    present(sheet.spec_links(), i) && sheet.spec_links()[i as int].unwrap().0 == kind
}

/// Whether the inheritance chain of style `i` is valid.
pub open spec fn chain_ok(sheet: StyleSheet, i: u16) -> bool {
    chain_from(sheet.spec_links(), Some(i), seq![], sheet.spec_depth() as int) is Ok
}

/// The inherited SPRMs of `family` (0 paragraph, 1 character) of style `i`, base first.
pub open spec fn style_chain_sprms(sheet: StyleSheet, i: u16, family: int) -> Seq<Sprm> {
    chain_sprms(
        sheet.spec_styles(),
        chain_from(sheet.spec_links(), Some(i), seq![], sheet.spec_depth() as int)->Ok_0.reverse(),
        family,
    )
}

/// The paragraph style of a direct paragraph run: its `sprmPIstd`, else the PAPX `istd`.
pub open spec fn paragraph_style_of(d: SemanticParagraphRun) -> Option<u16> {
    match d.properties.style_index {
        Some(i) => Some(i),
        None => d.source.paragraph_style,
    }
}

/// Whether `out` is styled paragraph run `j` made from direct run `d`.
pub open spec fn styled_paragraph_ok(out: StyledParagraphRun, j: int, d: SemanticParagraphRun, sheet: StyleSheet) -> bool {
    &&& out.direct_run_index == j
    &&& out.cp_start == d.source.cp_start
    &&& out.cp_end == d.source.cp_end
    &&& out.style_index == paragraph_style_of(d)
    &&& match out.style_index {
        Some(i) => style_kind_is(sheet, i, StyleKind::Paragraph) && chain_ok(sheet, i) && same_sprms(
            out.sprms@,
            style_chain_sprms(sheet, i, 0) + d.sprms@,
        ),
        None => same_sprms(out.sprms@, d.sprms@),
    }
    &&& paragraph_fields_match(out.properties, out.sprms@, out.sprms@.len() as int)
}

/// The inherited character SPRMs of an optional style.
pub open spec fn optional_char_sprms(sheet: StyleSheet, s: Option<u16>) -> Seq<Sprm> {
    match s {
        Some(i) => style_chain_sprms(sheet, i, 1),
        None => seq![],
    }
}

/// Whether `sprms` are the stylesheet defaults, then the paragraph style's and
/// the character style's inherited character SPRMs, then `direct`.
pub open spec fn layered_char_sprms(
    sprms: Seq<Sprm>,
    sheet: StyleSheet,
    pstyle: Option<u16>,
    cstyle: Option<u16>,
    direct: Seq<Sprm>,
) -> bool {
    let dfv = default_font_values(sheet.spec_fonts());
    &&& sprms.len() >= dfv.len()
    &&& forall|i: int| 0 <= i < dfv.len() ==> #[trigger] font_sprm_matches(sprms[i], dfv[i])
    &&& same_sprms(
        sprms.skip(dfv.len() as int),
        optional_char_sprms(sheet, pstyle) + optional_char_sprms(sheet, cstyle) + direct,
    )
}

/// Whether `c` is a styled character run over direct runs `chars` and styled paragraphs `paras`.
pub open spec fn styled_character_ok(
    c: StyledCharacterRun,
    chars: Seq<SemanticCharacterRun>,
    paras: Seq<StyledParagraphRun>,
    sheet: StyleSheet,
) -> bool {
    let d = chars[c.direct_run_index as int];
    &&& c.direct_run_index < chars.len()
    &&& d.source.cp_start <= c.cp_start < c.cp_end <= d.source.cp_end
    &&& match c.paragraph_run_index {
        Some(p) => p < paras.len() && paras[p as int].cp_start <= c.cp_start && c.cp_end <= paras[p as int].cp_end
            && c.paragraph_style_index == paras[p as int].style_index,
        None => c.paragraph_style_index is None,
    }
    &&& c.paragraph_style_index matches Some(i) ==> chain_ok(sheet, i)
    &&& c.character_style_index == d.properties.style_index
    &&& c.character_style_index matches Some(i) ==> style_kind_is(sheet, i, StyleKind::Character) && chain_ok(sheet, i)
    &&& layered_char_sprms(c.sprms@, sheet, c.paragraph_style_index, c.character_style_index, d.sprms@)
    &&& character_fields_match(c.properties, c.sprms@, c.sprms@.len() as int)
}

/// Whether consecutive runs `i` and `i + 1` continue one direct run or move to a later one.
pub open spec fn runs_continue(c: Seq<StyledCharacterRun>, chars: Seq<SemanticCharacterRun>, i: int) -> bool {
    ||| c[i + 1].direct_run_index == c[i].direct_run_index && c[i + 1].cp_start == c[i].cp_end
    ||| c[i + 1].direct_run_index > c[i].direct_run_index && c[i].cp_end == chars[c[i].direct_run_index as int].source.cp_end
        && c[i + 1].cp_start == chars[c[i + 1].direct_run_index as int].source.cp_start
}

/// Whether the styled character runs `c` tile every direct run's CP range, in order.
pub open spec fn character_runs_tile(c: Seq<StyledCharacterRun>, chars: Seq<SemanticCharacterRun>) -> bool {
    &&& forall|i: int| 0 <= i < c.len() - 1 ==> #[trigger] runs_continue(c, chars, i)
    &&& c.len() > 0 ==> c[0].cp_start == chars[c[0].direct_run_index as int].source.cp_start
        && c.last().cp_end == chars[c.last().direct_run_index as int].source.cp_end
    &&& forall|j: int|
        0 <= j < chars.len() && (#[trigger] chars[j]).source.cp_start < chars[j].source.cp_end ==> exists|i: int|
            0 <= i < c.len() && #[trigger] c[i].direct_run_index == j
}

/// Whether every SPRM of `s` has a valid character operand (or another family).
pub open spec fn all_character_ok(s: Seq<Sprm>) -> bool {
    forall|i: int| 0 <= i < s.len() ==> #[trigger] character_sprm_ok(s[i])
}

/// Whether every SPRM of `s` has a valid paragraph operand (or another family).
pub open spec fn all_paragraph_ok(s: Seq<Sprm>) -> bool {
    forall|i: int| 0 <= i < s.len() ==> #[trigger] paragraph_sprm_ok(s[i])
}

/// Whether style `i` has `kind`, a valid inheritance chain, and valid inherited
/// paragraph and character SPRMs.
pub open spec fn style_usable(sheet: StyleSheet, i: u16, kind: StyleKind) -> bool {
    &&& style_kind_is(sheet, i, kind)
    &&& chain_ok(sheet, i)
    &&& all_paragraph_ok(style_chain_sprms(sheet, i, 0))
    &&& all_character_ok(style_chain_sprms(sheet, i, 1))
}

/// Whether direct paragraph run `d` can be styled: its style is usable and its SPRMs are valid.
pub open spec fn paragraph_run_styles(d: SemanticParagraphRun, sheet: StyleSheet) -> bool {
    &&& paragraph_style_of(d) matches Some(i) ==> style_usable(sheet, i, StyleKind::Paragraph)
    &&& all_paragraph_ok(d.sprms@)
}

/// Whether direct character run `d` can be styled: its character style is usable
/// and its SPRMs are valid.
pub open spec fn character_run_styles(d: SemanticCharacterRun, sheet: StyleSheet) -> bool {
    &&& d.properties.style_index matches Some(i) ==> style_usable(sheet, i, StyleKind::Character)
    &&& all_character_ok(d.sprms@)
}

/// Whether every paragraph run, and every non-empty character run, of `direct` can be styled.
pub open spec fn styles_resolvable(direct: SemanticFormattingIndex, sheet: StyleSheet) -> bool {
    &&& forall|j: int|
        0 <= j < direct.paragraph_runs@.len() ==> #[trigger] paragraph_run_styles(direct.paragraph_runs@[j], sheet)
    &&& forall|k: int|
        0 <= k < direct.character_runs@.len() && (#[trigger] direct.character_runs@[k]).source.cp_start
            < direct.character_runs@[k].source.cp_end ==> character_run_styles(direct.character_runs@[k], sheet)
}

/// Matching SPRM lists are valid together, and a concatenation is valid when both parts are.
proof fn lemma_sprm_validity(a: Seq<Sprm>, b: Seq<Sprm>, x: Seq<Sprm>)
    requires
        same_sprms(a, x),
    ensures
        all_character_ok(a) <==> all_character_ok(x),
        all_paragraph_ok(a) <==> all_paragraph_ok(x),
        all_character_ok(a + b) <==> all_character_ok(a) && all_character_ok(b),
        all_paragraph_ok(a + b) <==> all_paragraph_ok(a) && all_paragraph_ok(b),
{
    assert forall|i: int| 0 <= i < a.len() implies (character_sprm_ok(#[trigger] a[i]) <==> character_sprm_ok(x[i]))
        && (paragraph_sprm_ok(a[i]) <==> paragraph_sprm_ok(x[i])) by {
        assert(same_sprm(a[i], x[i]));
    }
    if all_character_ok(a) {
        assert forall|i: int| 0 <= i < x.len() implies #[trigger] character_sprm_ok(x[i]) by {
            assert(character_sprm_ok(a[i]));
        }
    }
    if all_character_ok(x) {
        assert forall|i: int| 0 <= i < a.len() implies #[trigger] character_sprm_ok(a[i]) by {
            assert(character_sprm_ok(x[i]));
        }
    }
    if all_paragraph_ok(a) {
        assert forall|i: int| 0 <= i < x.len() implies #[trigger] paragraph_sprm_ok(x[i]) by {
            assert(paragraph_sprm_ok(a[i]));
        }
    }
    if all_paragraph_ok(x) {
        assert forall|i: int| 0 <= i < a.len() implies #[trigger] paragraph_sprm_ok(a[i]) by {
            assert(paragraph_sprm_ok(x[i]));
        }
    }
    if all_character_ok(a + b) {
        assert forall|i: int| 0 <= i < a.len() implies #[trigger] character_sprm_ok(a[i]) by {
            assert(character_sprm_ok((a + b)[i]));
        }
        assert forall|i: int| 0 <= i < b.len() implies #[trigger] character_sprm_ok(b[i]) by {
            assert(character_sprm_ok((a + b)[a.len() + i]));
        }
    }
    if all_character_ok(a) && all_character_ok(b) {
        assert forall|i: int| 0 <= i < (a + b).len() implies #[trigger] character_sprm_ok((a + b)[i]) by {
            if i < a.len() {
                assert(character_sprm_ok(a[i]));
            } else {
                assert(character_sprm_ok(b[i - a.len()]));
            }
        }
    }
    if all_paragraph_ok(a + b) {
        assert forall|i: int| 0 <= i < a.len() implies #[trigger] paragraph_sprm_ok(a[i]) by {
            assert(paragraph_sprm_ok((a + b)[i]));
        }
        assert forall|i: int| 0 <= i < b.len() implies #[trigger] paragraph_sprm_ok(b[i]) by {
            assert(paragraph_sprm_ok((a + b)[a.len() + i]));
        }
    }
    if all_paragraph_ok(a) && all_paragraph_ok(b) {
        assert forall|i: int| 0 <= i < (a + b).len() implies #[trigger] paragraph_sprm_ok((a + b)[i]) by {
            if i < a.len() {
                assert(paragraph_sprm_ok(a[i]));
            } else {
                assert(paragraph_sprm_ok(b[i - a.len()]));
            }
        }
    }
}

/// The default-font SPRMs are valid character modifiers.
proof fn lemma_default_fonts_ok(f: crate::styles::DefaultStyleFonts)
    ensures
        forall|s: Sprm, i: int|
            0 <= i < default_font_values(f).len() && #[trigger] font_sprm_matches(s, default_font_values(f)[i])
                ==> character_sprm_ok(s),
{
    let a = crate::styles::font_value(0x4A4F, Some(f.ascii));
    let b = crate::styles::font_value(0x4A50, Some(f.east_asian));
    let c = crate::styles::font_value(0x4A51, Some(f.other));
    let e = crate::styles::font_value(0x4A5E, f.bidi);
    let dfv = default_font_values(f);
    assert(dfv == a + b + c + e);
    assert forall|i: int| 0 <= i < dfv.len() implies #[trigger] dfv[i].0 == 0x4A4F || dfv[i].0 == 0x4A50
        || dfv[i].0 == 0x4A51 || dfv[i].0 == 0x4A5E by {
        if i < a.len() {
            assert(dfv[i] == a[i]);
        } else if i < a.len() + b.len() {
            assert(dfv[i] == b[i - a.len()]);
        } else if i < a.len() + b.len() + c.len() {
            assert(dfv[i] == c[i - a.len() - b.len()]);
        } else {
            assert(dfv[i] == e[i - a.len() - b.len() - c.len()]);
        }
    }
    assert forall|s: Sprm, i: int|
        0 <= i < dfv.len() && #[trigger] font_sprm_matches(s, dfv[i]) implies character_sprm_ok(s) by {
        assert(dfv[i].0 == 0x4A4F || dfv[i].0 == 0x4A50 || dfv[i].0 == 0x4A51 || dfv[i].0 == 0x4A5E);
    }
}

/// Fails unless style `index` exists and has kind `expected`.
fn require_style_kind(styles: &StyleSheet, index: u16, expected: StyleKind) -> (res: Result<()>)
    ensures
        res is Ok <==> style_kind_is(*styles, index, expected),
        res is Err ==> res->Err_0.kind() == ErrorKind::InvalidStyle,
{
    match styles.get(index) {
        None => Err(DocError::InvalidStyle(message("referenced style is empty"))),
        Some(style) => if style.kind != expected {
            Err(DocError::InvalidStyle(message("referenced style has another kind")))
        } else {
            Ok(())
        },
    }
}

/// Appends the inherited paragraph (or, with `character`, character) SPRMs of style `index`.
fn append_style_sprms(sprms: &mut Vec<Sprm>, styles: &StyleSheet, index: u16, character: bool) -> (res: Result<()>)
    ensures
        res is Ok <==> chain_ok(*styles, index) && all_paragraph_ok(style_chain_sprms(*styles, index, 0))
            && all_character_ok(style_chain_sprms(*styles, index, 1)),
        res is Ok ==> chain_ok(*styles, index) && final(sprms)@.len() == old(sprms)@.len() + style_chain_sprms(
            *styles,
            index,
            if character { 1 } else { 0 },
        ).len() && final(sprms)@.take(old(sprms)@.len() as int) == old(sprms)@ && same_sprms(
            final(sprms)@.skip(old(sprms)@.len() as int),
            style_chain_sprms(*styles, index, if character { 1 } else { 0 }),
        ),
        res is Err ==> res->Err_0.kind() == ErrorKind::InvalidStyle || res->Err_0.kind() == ErrorKind::ResourceLimit
            || res->Err_0.kind() == ErrorKind::InvalidFormatting,
{
    proof {
        crate::styles::lemma_chain_error_kinds(styles.spec_links(), Some(index), seq![], styles.spec_depth() as int);
    }
    let inherited = styles.inherited_properties(index)?;
    let ghost before = sprms@;
    if !character {
        append_sprms(sprms, &inherited.paragraph_sprms);
    } else {
        append_sprms(sprms, &inherited.character_sprms);
    }
    proof {
        let chain = style_chain_sprms(*styles, index, if character { 1 } else { 0 });
        assert(sprms@.take(before.len() as int) =~= before);
        assert forall|i: int| 0 <= i < chain.len() implies #[trigger] same_sprm(sprms@.skip(before.len() as int)[i], chain[i]) by {
            if !character {
                assert(same_sprm(sprms@[before.len() + i], inherited.paragraph_sprms@[i]));
                assert(same_sprm(inherited.paragraph_sprms@[i], chain[i]));
            } else {
                assert(same_sprm(sprms@[before.len() + i], inherited.character_sprms@[i]));
                assert(same_sprm(inherited.character_sprms@[i], chain[i]));
            }
        }
    }
    Ok(())
}

/// `a ++ b` matches `x ++ y` when the parts match.
proof fn lemma_same_sprms_concat(a: Seq<Sprm>, b: Seq<Sprm>, x: Seq<Sprm>, y: Seq<Sprm>)
    requires
        same_sprms(a, x),
        same_sprms(b, y),
    ensures
        same_sprms(a + b, x + y),
{
    assert forall|i: int| 0 <= i < (a + b).len() implies #[trigger] same_sprm((a + b)[i], (x + y)[i]) by {
        if i < a.len() {
            assert(same_sprm(a[i], x[i]));
        } else {
            assert(same_sprm(b[i - a.len()], y[i - a.len()]));
        }
    }
}

/// Builds one styled paragraph run.
fn style_paragraph_run(direct: &SemanticParagraphRun, j: usize, styles: &StyleSheet) -> (res: Result<StyledParagraphRun>)
    ensures
        res is Ok <==> paragraph_run_styles(*direct, *styles),
        res matches Ok(out) ==> styled_paragraph_ok(out, j as int, *direct, *styles),
        res is Err ==> res->Err_0.kind() == ErrorKind::InvalidStyle || res->Err_0.kind() == ErrorKind::ResourceLimit
            || res->Err_0.kind() == ErrorKind::InvalidFormatting,
{
    let style_index = match direct.properties.style_index {
        Some(i) => Some(i),
        None => direct.source.paragraph_style,
    };
    let mut sprms: Vec<Sprm> = Vec::new();
    if let Some(index) = style_index {
        require_style_kind(styles, index, StyleKind::Paragraph)?;
        append_style_sprms(&mut sprms, styles, index, false)?;
    }
    let ghost before = sprms@;
    append_sprms(&mut sprms, &direct.sprms);
    proof {
        match style_index {
            Some(i) => {
                assert(before.skip(0) =~= before);
                lemma_same_sprms_append(before, sprms@, style_chain_sprms(*styles, i, 0), direct.sprms@);
                let chain = style_chain_sprms(*styles, i, 0);
                lemma_sprm_validity(sprms@, seq![], chain + direct.sprms@);
                lemma_sprm_validity(chain, direct.sprms@, chain);
            },
            None => {
                assert(before =~= seq![]);
                lemma_same_sprms_append(before, sprms@, seq![], direct.sprms@);
                assert(Seq::<Sprm>::empty() + direct.sprms@ =~= direct.sprms@);
                lemma_sprm_validity(sprms@, seq![], direct.sprms@);
            },
        }
    }
    let properties = apply_paragraph_sprms(sprms.as_slice())?;
    Ok(
        StyledParagraphRun {
            direct_run_index: j,
            cp_start: direct.source.cp_start,
            cp_end: direct.source.cp_end,
            style_index,
            sprms,
            properties,
        },
    )
}


/// Builds the styled character run `[cp, cp_end)` of direct run `j`.
fn style_character_run(
    chars: &Vec<SemanticCharacterRun>,
    j: usize,
    paras: &Vec<StyledParagraphRun>,
    paragraph_run_index: Option<usize>,
    cp: u32,
    cp_end: u32,
    styles: &StyleSheet,
    defaults: &Vec<Sprm>,
) -> (res: Result<StyledCharacterRun>)
    requires
        j < chars@.len(),
        chars@[j as int].source.cp_start <= cp < cp_end <= chars@[j as int].source.cp_end,
        paragraph_run_index matches Some(p) ==> p < paras@.len() && paras@[p as int].cp_start <= cp && cp_end
            <= paras@[p as int].cp_end,
        paragraph_run_index matches Some(p) ==> (paras@[p as int].style_index matches Some(i) ==> style_usable(
            *styles,
            i,
            StyleKind::Paragraph,
        )),
        defaults@.len() == default_font_values(styles.spec_fonts()).len(),
        forall|i: int|
            0 <= i < defaults@.len() ==> #[trigger] font_sprm_matches(defaults@[i], default_font_values(styles.spec_fonts())[i]),
    ensures
        res is Ok <==> character_run_styles(chars@[j as int], *styles),
        res matches Ok(c) ==> styled_character_ok(c, chars@, paras@, *styles) && c.direct_run_index == j && c.cp_start
            == cp && c.cp_end == cp_end,
        res is Err ==> res->Err_0.kind() == ErrorKind::InvalidStyle || res->Err_0.kind() == ErrorKind::ResourceLimit
            || res->Err_0.kind() == ErrorKind::InvalidFormatting,
{
    let direct = &chars[j];
    let paragraph_style_index = match paragraph_run_index {
        Some(p) => paras[p].style_index,
        None => None,
    };
    let character_style_index = direct.properties.style_index;
    let mut sprms: Vec<Sprm> = Vec::new();
    append_sprms(&mut sprms, defaults);
    let ghost n = sprms@.len();
    let ghost d0 = sprms@;
    if let Some(index) = paragraph_style_index {
        append_style_sprms(&mut sprms, styles, index, true)?;
    }
    let ghost d1 = sprms@;
    if let Some(index) = character_style_index {
        require_style_kind(styles, index, StyleKind::Character)?;
        append_style_sprms(&mut sprms, styles, index, true)?;
    }
    let ghost d2 = sprms@;
    append_sprms(&mut sprms, &direct.sprms);
    proof {
        let dfv = default_font_values(styles.spec_fonts());
        let pa = optional_char_sprms(*styles, paragraph_style_index);
        let ca = optional_char_sprms(*styles, character_style_index);
        assert(d1.take(n as int) =~= d0);
        assert(d2.take(n as int) =~= d0) by {
            assert(d2.take(d1.len() as int) == d1);
        }
        assert(sprms@.take(n as int) =~= d0) by {
            assert(sprms@.take(d2.len() as int) =~= d2);
        }
        assert forall|i: int| 0 <= i < dfv.len() implies #[trigger] font_sprm_matches(sprms@[i], dfv[i]) by {
            assert(sprms@[i] == sprms@.take(n as int)[i]);
            assert(same_sprm(d0[0 + i], defaults@[i]));
            assert(font_sprm_matches(defaults@[i], dfv[i]));
        }
        // The part after the defaults.
        assert(same_sprms(d1.skip(n as int), pa)) by {
            if paragraph_style_index is None {
                assert(d1.skip(n as int) =~= seq![]);
            }
        }
        assert(same_sprms(d2.skip(n as int), pa + ca)) by {
            if character_style_index is Some {
                assert(d2.skip(n as int) =~= d1.skip(n as int) + d2.skip(d1.len() as int));
                lemma_same_sprms_concat(d1.skip(n as int), d2.skip(d1.len() as int), pa, ca);
            } else {
                assert(d2 == d1);
                assert(pa + ca =~= pa);
            }
        }
        let tail = sprms@.skip(n as int);
        assert(tail.len() == d2.skip(n as int).len() + direct.sprms@.len());
        assert forall|i: int| 0 <= i < d2.skip(n as int).len() implies #[trigger] tail[i] == d2.skip(n as int)[i] by {
            assert(sprms@[n + i] == d2[n + i]);
        }
        assert forall|i: int| 0 <= i < direct.sprms@.len() implies #[trigger] same_sprm(
            tail[d2.skip(n as int).len() + i],
            direct.sprms@[i],
        ) by {
            assert(same_sprm(sprms@[d2.len() + i], direct.sprms@[i]));
            assert(tail[d2.skip(n as int).len() + i] == sprms@[d2.len() + i]);
        }
        lemma_same_sprms_append(d2.skip(n as int), tail, pa + ca, direct.sprms@);
        // Validity of the layered list comes down to validity of the direct SPRMs.
        lemma_default_fonts_ok(styles.spec_fonts());
        assert(all_character_ok(sprms@.take(n as int))) by {
            assert forall|i: int| 0 <= i < n implies #[trigger] character_sprm_ok(sprms@.take(n as int)[i]) by {
                assert(font_sprm_matches(sprms@[i], dfv[i]));
            }
        }
        assert(all_character_ok(pa));
        assert(all_character_ok(ca));
        lemma_sprm_validity(tail, seq![], pa + ca + direct.sprms@);
        lemma_sprm_validity(pa + ca, direct.sprms@, pa + ca);
        lemma_sprm_validity(pa, ca, pa);
        lemma_sprm_validity(sprms@.take(n as int), tail, sprms@.take(n as int));
        assert(sprms@.take(n as int) + tail =~= sprms@);
    }
    let properties = apply_character_sprms(sprms.as_slice())?;
    Ok(
        StyledCharacterRun {
            direct_run_index: j,
            paragraph_run_index,
            cp_start: cp,
            cp_end,
            paragraph_style_index,
            character_style_index,
            sprms,
            properties,
        },
    )
}


/// Whether `paras` and `chars` are the styled runs of `direct` under `sheet`.
pub open spec fn styled_runs_ok(
    direct: SemanticFormattingIndex,
    sheet: StyleSheet,
    paras: Seq<StyledParagraphRun>,
    chars: Seq<StyledCharacterRun>,
) -> bool {
    &&& paras.len() == direct.paragraph_runs@.len()
    &&& forall|j: int| 0 <= j < paras.len() ==> #[trigger] styled_paragraph_ok(paras[j], j, direct.paragraph_runs@[j], sheet)
    &&& forall|i: int|
        0 <= i < chars.len() ==> #[trigger] styled_character_ok(chars[i], direct.character_runs@, paras, sheet)
    &&& character_runs_tile(chars, direct.character_runs@)
}

/// Whether the runs `c` made so far continue one another and start at their direct run.
pub open spec fn tiled_so_far(c: Seq<StyledCharacterRun>, chars: Seq<SemanticCharacterRun>) -> bool {
    &&& forall|i: int| 0 <= i < c.len() - 1 ==> #[trigger] runs_continue(c, chars, i)
    &&& c.len() > 0 ==> c[0].cp_start == chars[c[0].direct_run_index as int].source.cp_start
}

impl SemanticFormattingIndex {
    /// Applies stylesheet inheritance around direct formatting and splits CHPX
    /// runs at paragraph boundaries before assigning paragraph style effects.
    pub fn apply_styles(&self, styles: &StyleSheet) -> (res: Result<StyledFormattingIndex>)
        ensures
            res is Ok <==> styles_resolvable(*self, *styles),
            res matches Ok(r) ==> same_semantic_index(r.direct, *self),
            res matches Ok(r) ==> styled_runs_ok(*self, *styles, r.paragraph_runs@, r.character_runs@),
            res is Err ==> res->Err_0.kind() == ErrorKind::InvalidStyle || res->Err_0.kind() == ErrorKind::ResourceLimit
                || res->Err_0.kind() == ErrorKind::InvalidFormatting,
    {
        let (paragraph_runs, character_runs) = self.style_runs(styles)?;
        Ok(StyledFormattingIndex { direct: self.copy(), paragraph_runs, character_runs })
    }

    /// The styled paragraph and character runs.
    #[verifier::rlimit(80)]
    #[verifier::spinoff_prover]
    pub fn style_runs(&self, styles: &StyleSheet) -> (res: Result<(Vec<StyledParagraphRun>, Vec<StyledCharacterRun>)>)
        ensures
            res is Ok <==> styles_resolvable(*self, *styles),
            res matches Ok(r) ==> styled_runs_ok(*self, *styles, r.0@, r.1@),
            res is Err ==> res->Err_0.kind() == ErrorKind::InvalidStyle || res->Err_0.kind() == ErrorKind::ResourceLimit
                || res->Err_0.kind() == ErrorKind::InvalidFormatting,
    {
        let mut paragraph_runs: Vec<StyledParagraphRun> = Vec::new();
        let mut j: usize = 0;
        while j < self.paragraph_runs.len()
            invariant
                j <= self.paragraph_runs@.len(),
                paragraph_runs@.len() == j,
                forall|k: int|
                    0 <= k < j ==> #[trigger] styled_paragraph_ok(paragraph_runs@[k], k, self.paragraph_runs@[k], *styles),
                forall|k: int| 0 <= k < j ==> #[trigger] paragraph_run_styles(self.paragraph_runs@[k], *styles),
            decreases self.paragraph_runs@.len() - j,
        {
            let run = style_paragraph_run(&self.paragraph_runs[j], j, styles)?;
            paragraph_runs.push(run);
            j = j + 1;
        }
        let ghost paras = paragraph_runs@;
        assert forall|p: int| 0 <= p < paras.len() implies (#[trigger] paras[p]).style_index matches Some(i) ==> style_usable(
            *styles,
            i,
            StyleKind::Paragraph,
        ) by {
            assert(styled_paragraph_ok(paras[p], p, self.paragraph_runs@[p], *styles));
            assert(paragraph_run_styles(self.paragraph_runs@[p], *styles));
        }
        let defaults = styles.default_character_sprms();
        let chars = &self.character_runs;
        let ghost cs = chars@;
        let mut character_runs: Vec<StyledCharacterRun> = Vec::new();
        let mut cursor: usize = 0;
        let ghost mut firsts: Seq<int> = seq![];
        let mut j: usize = 0;
        while j < chars.len()
            invariant
                cs == chars@,
                cs == self.character_runs@,
                paras == paragraph_runs@,
                forall|p: int|
                    0 <= p < paras.len() ==> ((#[trigger] paras[p]).style_index matches Some(i) ==> style_usable(
                        *styles,
                        i,
                        StyleKind::Paragraph,
                    )),
                forall|k: int| 0 <= k < self.paragraph_runs@.len() ==> #[trigger] paragraph_run_styles(self.paragraph_runs@[k], *styles),
                defaults@.len() == default_font_values(styles.spec_fonts()).len(),
                forall|i: int|
                    0 <= i < defaults@.len() ==> #[trigger] font_sprm_matches(
                        defaults@[i],
                        default_font_values(styles.spec_fonts())[i],
                    ),
                j <= cs.len(),
                cursor <= paras.len(),
                forall|i: int|
                    0 <= i < character_runs@.len() ==> #[trigger] styled_character_ok(character_runs@[i], cs, paras, *styles)
                        && character_runs@[i].direct_run_index < j,
                tiled_so_far(character_runs@, cs),
                character_runs@.len() > 0 ==> character_runs@.last().cp_end == cs[character_runs@.last().direct_run_index as int].source.cp_end,
                firsts.len() == j,
                forall|k: int|
                    0 <= k < j && (#[trigger] cs[k]).source.cp_start < cs[k].source.cp_end ==> 0 <= firsts[k]
                        < character_runs@.len() && character_runs@[firsts[k]].direct_run_index == k,
                forall|k: int|
                    0 <= k < j && (#[trigger] cs[k]).source.cp_start < cs[k].source.cp_end ==> character_run_styles(cs[k], *styles),
            decreases cs.len() - j,
        {
            let direct = &chars[j];
            let start = direct.source.cp_start;
            let end = direct.source.cp_end;
            let mut cp = start;
            let ghost start_len = character_runs@.len();
            proof {
                assert forall|i: int| 0 <= i < start_len implies #[trigger] character_runs@[i].direct_run_index < j by {
                    assert(styled_character_ok(character_runs@[i], cs, paras, *styles));
                }
                if start_len > 0 {
                    assert(character_runs@[start_len - 1] == character_runs@.last());
                    assert(styled_character_ok(character_runs@[start_len - 1], cs, paras, *styles));
                }
            }
            while cp < end
                invariant
                    cs == chars@,
                    cs == self.character_runs@,
                    paras == paragraph_runs@,
                    forall|p: int|
                        0 <= p < paras.len() ==> ((#[trigger] paras[p]).style_index matches Some(i) ==> style_usable(
                        *styles,
                        i,
                        StyleKind::Paragraph,
                    )),
                forall|k: int| 0 <= k < self.paragraph_runs@.len() ==> #[trigger] paragraph_run_styles(self.paragraph_runs@[k], *styles),
                    defaults@.len() == default_font_values(styles.spec_fonts()).len(),
                    forall|i: int|
                        0 <= i < defaults@.len() ==> #[trigger] font_sprm_matches(
                            defaults@[i],
                            default_font_values(styles.spec_fonts())[i],
                        ),
                    j < cs.len(),
                    start == cs[j as int].source.cp_start,
                    end == cs[j as int].source.cp_end,
                    cursor <= paras.len(),
                    start <= cp,
                    cp > start ==> cp <= end,
                    start_len <= character_runs@.len(),
                    character_runs@.len() == start_len ==> cp == start,
                    character_runs@.len() > start_len ==> character_runs@.last().direct_run_index == j
                        && character_runs@.last().cp_end == cp && character_runs@[start_len as int].direct_run_index == j,
                    start_len > 0 ==> character_runs@[start_len - 1].direct_run_index < j
                        && character_runs@[start_len - 1].cp_end == cs[character_runs@[start_len - 1].direct_run_index as int].source.cp_end,
                    forall|i: int|
                        0 <= i < character_runs@.len() ==> #[trigger] styled_character_ok(character_runs@[i], cs, paras, *styles)
                            && character_runs@[i].direct_run_index <= j,
                    forall|i: int|
                        0 <= i < start_len ==> #[trigger] character_runs@[i].direct_run_index < j,
                    tiled_so_far(character_runs@, cs),
                    firsts.len() == j,
                    forall|k: int|
                        0 <= k < j && (#[trigger] cs[k]).source.cp_start < cs[k].source.cp_end ==> 0 <= firsts[k]
                            < start_len && character_runs@[firsts[k]].direct_run_index == k,
                    forall|k: int|
                        0 <= k < j && (#[trigger] cs[k]).source.cp_start < cs[k].source.cp_end ==> character_run_styles(cs[k], *styles),
                    cp > start ==> character_run_styles(cs[j as int], *styles),
                decreases end - cp,
            {
                while cursor < paragraph_runs.len() && paragraph_runs[cursor].cp_end <= cp
                    invariant
                        cursor <= paragraph_runs@.len(),
                    decreases paragraph_runs@.len() - cursor,
                {
                    cursor = cursor + 1;
                }
                let paragraph_run_index = if cursor < paragraph_runs.len() && paragraph_runs[cursor].cp_start <= cp
                    && cp < paragraph_runs[cursor].cp_end {
                    Some(cursor)
                } else {
                    None
                };
                let cp_end = match paragraph_run_index {
                    Some(i) => if paragraph_runs[i].cp_end < end {
                        paragraph_runs[i].cp_end
                    } else {
                        end
                    },
                    None => if cursor < paragraph_runs.len() && paragraph_runs[cursor].cp_start < end {
                        paragraph_runs[cursor].cp_start
                    } else {
                        end
                    },
                };
                assert(cp < cp_end);
                if cp_end <= cp {
                    return Err(DocError::InvalidFormatting(message("cannot advance a styled character run")));
                }
                let run = match style_character_run(
                    chars,
                    j,
                    &paragraph_runs,
                    paragraph_run_index,
                    cp,
                    cp_end,
                    styles,
                    &defaults,
                ) {
                    Ok(run) => run,
                    Err(e) => {
                        proof {
                            let d = self.character_runs@[j as int];
                            assert(d.source.cp_start < d.source.cp_end && !character_run_styles(d, *styles));
                        }
                        return Err(e);
                    },
                };
                let ghost before = character_runs@;
                character_runs.push(run);
                proof {
                    let c = character_runs@;
                    assert(c.drop_last() =~= before);
                    assert forall|i: int| 0 <= i < c.len() - 1 implies #[trigger] runs_continue(c, cs, i) by {
                        if i < before.len() - 1 {
                            assert(runs_continue(before, cs, i));
                        }
                    }
                }
                cp = cp_end;
            }
            proof {
                let n = character_runs@.len();
                assert forall|i: int| 0 <= i < n implies #[trigger] styled_character_ok(character_runs@[i], cs, paras, *styles)
                    && character_runs@[i].direct_run_index < j + 1 by {
                    assert(styled_character_ok(character_runs@[i], cs, paras, *styles));
                }
                if n > start_len {
                    assert(styled_character_ok(character_runs@[n - 1], cs, paras, *styles));
                    assert(character_runs@.last() == character_runs@[n - 1]);
                    assert(cp == end);
                }
                if start < end {
                    firsts = firsts.push(start_len as int);
                } else {
                    firsts = firsts.push(-1);
                }
                assert forall|k: int|
                    0 <= k < j + 1 && (#[trigger] cs[k]).source.cp_start < cs[k].source.cp_end implies 0 <= firsts[k]
                        < character_runs@.len() && character_runs@[firsts[k]].direct_run_index == k by {
                    if k < j {
                    } else {
                        assert(character_runs@.len() > start_len);
                    }
                }
                assert forall|k: int|
                    0 <= k < j + 1 && (#[trigger] cs[k]).source.cp_start < cs[k].source.cp_end implies character_run_styles(
                    cs[k],
                    *styles,
                ) by {
                    if k == j {
                        assert(cp > start);
                    }
                }
            }
            let ghost old_j = j;
            j = j + 1;
            proof {
                assert forall|i: int| 0 <= i < character_runs@.len() implies #[trigger] styled_character_ok(
                    character_runs@[i],
                    cs,
                    paras,
                    *styles,
                ) && character_runs@[i].direct_run_index < j by {
                    assert(styled_character_ok(character_runs@[i], cs, paras, *styles));
                    assert(character_runs@[i].direct_run_index < old_j + 1);
                }
            }
        }
        let result = (paragraph_runs, character_runs);
        proof {
            let c = result.1@;
            assert forall|k: int|
                0 <= k < cs.len() && (#[trigger] cs[k]).source.cp_start < cs[k].source.cp_end implies exists|i: int|
                    0 <= i < c.len() && #[trigger] c[i].direct_run_index == k by {
                assert(c[firsts[k]].direct_run_index == k);
            }
        }
        Ok(result)
    }
}


/// The logical character and paragraph runs of a document, or the failure kind.
pub open spec fn logical_outcome(
    fib: Fib,
    word: Seq<u8>,
    table: Seq<u8>,
    limits: DocLimits,
    pieces: Seq<TextPiece>,
) -> Outcome<(Seq<LogicalSpec>, Seq<LogicalSpec>)> {
    match kind_outcome(fib.locations.spec_get(INDEX_PLCF_BTE_CHPX), word, table, limits, FkpKind::Character) {
        Err(e) => Err(e),
        Ok(c) => match kind_outcome(fib.locations.spec_get(INDEX_PLCF_BTE_PAPX), word, table, limits, FkpKind::Paragraph) {
            Err(e) => Err(e),
            Ok(p) => match mapped_runs(c, pieces, pieces.len() as int) {
                Err(e) => Err(e),
                Ok(lc) => match mapped_runs(p, pieces, pieces.len() as int) {
                    Err(e) => Err(e),
                    Ok(lp) => Ok((lc, lp)),
                },
            },
        },
    }
}

/// Whether every logical character and paragraph run of `l` resolves
/// against piece table `pt`.
pub open spec fn runs_resolve(l: (Seq<LogicalSpec>, Seq<LogicalSpec>), pt: PieceTable) -> bool {
    &&& forall|k: int| 0 <= k < l.0.len() ==> #[trigger] character_run_resolves(l.0[k], pt)
    &&& forall|k: int| 0 <= k < l.1.len() ==> #[trigger] paragraph_run_resolves(l.1[k], pt)
}

/// Whether `res` resolves logical runs `l` against piece table `pt`: it
/// succeeds exactly when every run resolves.
pub open spec fn semantic_of(
    res: Result<SemanticFormattingIndex>,
    l: (Seq<LogicalSpec>, Seq<LogicalSpec>),
    pt: PieceTable,
) -> bool {
    &&& res is Ok <==> runs_resolve(l, pt)
    &&& res matches Ok(r) ==> {
        &&& r.character_runs@.len() == l.0.len()
        &&& r.paragraph_runs@.len() == l.1.len()
        &&& forall|k: int| 0 <= k < l.0.len() ==> #[trigger] character_run_resolved(r.character_runs@[k], l.0[k], pt)
        &&& forall|k: int| 0 <= k < l.1.len() ==> #[trigger] paragraph_run_resolved(r.paragraph_runs@[k], l.1[k], pt)
    }
    &&& res is Err ==> res->Err_0.kind() == ErrorKind::InvalidPieceTable || res->Err_0.kind()
        == ErrorKind::InvalidFormatting
}

} // verus!

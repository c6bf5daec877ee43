//! Source-proven table row definitions and nested grid reconstruction.

use vstd::prelude::*;

use crate::binary::le_u16;
use crate::document::{Story, StoryKind, WordBinaryDocument};
use crate::error::{DocError, ErrorKind, Outcome, Result, message};
use crate::formatting::{SemanticFormattingIndex, SemanticParagraphRun};
use crate::limits::DocLimits;
use crate::properties::{ParagraphPropertyDelta, last_index};
use crate::sprm::{PropertyGroup, SPRM_T_DEF_TABLE, Sprm};

verus! {

/// Size of one `TC80` cell descriptor.
pub const TC80_SIZE: usize = 20;

/// Horizontal merge role from `TCGRF.horzMerge`.
#[derive(Debug, Clone, Copy, PartialEq, Eq, Structural)]
pub enum HorizontalMerge {
    /// The cell is not merged horizontally.
    Unmerged,
    Continuation,
    Start,
}

/// Vertical merge role from `TCGRF.vertMerge`.
#[derive(Debug, Clone, Copy, PartialEq, Eq, Structural)]
pub enum VerticalMerge {
    /// The cell is not merged vertically.
    Unmerged,
    Continuation,
    Start,
    StartAndEnd,
}

/// Source formatting for one row cell definition.
#[derive(Debug, Clone, Copy, PartialEq, Eq)]
pub struct CellFormat {
    pub horizontal_merge: HorizontalMerge,
    pub vertical_merge: VerticalMerge,
    pub text_flow: u8,
    pub vertical_alignment: u8,
    pub width_unit: u8,
    pub preferred_width: u16,
    pub fit_text: bool,
    pub no_wrap: bool,
    pub hide_mark: bool,
    pub borders: [[u8; 4]; 4],
}

/// Whether `f` is the format of a cell without a `TC80`.
pub open spec fn is_default_cell(f: CellFormat) -> bool {
    &&& f.horizontal_merge == HorizontalMerge::Unmerged
    &&& f.vertical_merge == VerticalMerge::Unmerged
    &&& f.text_flow == 0
    &&& f.vertical_alignment == 0
    &&& f.width_unit == 0
    &&& f.preferred_width == 0
    &&& !f.fit_text
    &&& !f.no_wrap
    &&& !f.hide_mark
    &&& forall|i: int, j: int| 0 <= i < 4 && 0 <= j < 4 ==> f.borders@[i]@[j] == 0
}

impl Default for CellFormat {
    fn default() -> (res: Self)
        ensures
            is_default_cell(res),
    {
        CellFormat {
            horizontal_merge: HorizontalMerge::Unmerged,
            vertical_merge: VerticalMerge::Unmerged,
            text_flow: 0,
            vertical_alignment: 0,
            width_unit: 0,
            preferred_width: 0,
            fit_text: false,
            no_wrap: false,
            hide_mark: false,
            borders: [[0; 4]; 4],
        }
    }
}

/// Initial cell grid stored by one row's `sprmTDefTable`.
#[derive(Debug, Clone, PartialEq, Eq)]
pub struct TableRowDefinition {
    pub column_count: u8,
    /// Logical cell edges in twips, including the left and right outer edges.
    pub cell_edges_twips: Vec<i16>,
    pub cells: Vec<CellFormat>,
}

/// Default cell margins for a table row, in twips.
#[derive(Debug, Clone, Copy, PartialEq, Eq, Structural)]
pub struct CellMargins {
    pub top: u16,
    pub left: u16,
    pub bottom: u16,
    pub right: u16,
}

impl Default for CellMargins {
    fn default() -> (res: Self)
        ensures
            res == (CellMargins { top: 0, left: 108, bottom: 0, right: 108 }),
    {
        CellMargins { top: 0, left: 108, bottom: 0, right: 108 }
    }
}

/// Known row-level table properties. Unknown opcodes remain explicit.
#[derive(Debug, Clone, PartialEq, Eq)]
pub struct TablePropertyDelta {
    pub definition: Option<TableRowDefinition>,
    pub justification: Option<u16>,
    /// Half of the inter-cell gap in twips (`sprmTDxaGapHalf`).
    pub gap_half_twips: Option<u16>,
    /// Outer and inner table borders in top/left/bottom/right/insideH/insideV order.
    pub borders80: Option<[[u8; 4]; 6]>,
    pub default_cell_margins: CellMargins,
    /// Whether Word may resize columns to fit content (`sprmTFAutofit`).
    /// Absence means the MS-DOC default of fixed source column widths.
    pub autofit: Option<bool>,
    pub cant_split: Option<bool>,
    pub header: Option<bool>,
    /// Signed row height: positive means minimum, negative means exact.
    pub row_height_twips: Option<i16>,
    pub unsupported_opcodes: Vec<u16>,
}

/// One reconstructed cell, including its source cell mark.
#[derive(Debug, Clone, PartialEq, Eq)]
pub struct TableCell {
    pub index: u8,
    pub cp_start: u32,
    /// Exclusive content end; excludes the cell mark.
    pub cp_content_end: u32,
    /// Exclusive source range; includes the cell mark.
    pub cp_end: u32,
    pub format: CellFormat,
}

/// One reconstructed table row ending in an explicit TTP mark.
#[derive(Debug, Clone, PartialEq, Eq)]
pub struct TableRow {
    pub cp_start: u32,
    pub cp_end: u32,
    pub depth: u32,
    pub properties: TablePropertyDelta,
    pub cells: Vec<TableCell>,
}

/// Consecutive rows at one table depth.
#[derive(Debug, Clone, PartialEq, Eq)]
pub struct Table {
    pub cp_start: u32,
    pub cp_end: u32,
    pub depth: u32,
    pub rows: Vec<TableRow>,
}

// ---- Cell descriptors and row definitions.

/// `TCGRF` flags of a `TC80`.
pub open spec fn tc_flags(d: Seq<u8>) -> u16 {
    le_u16(d, 0)
}

/// Whether `f` is the cell format stored by `TC80` `d`.
pub open spec fn tc80_matches(f: CellFormat, d: Seq<u8>) -> bool {
    let flags = tc_flags(d);
    &&& f.horizontal_merge == if flags % 4 == 0 {
        HorizontalMerge::Unmerged
    } else if flags % 4 == 1 {
        HorizontalMerge::Continuation
    } else {
        HorizontalMerge::Start
    }
    &&& f.vertical_merge == if (flags / 32) % 4 == 0 {
        VerticalMerge::Unmerged
    } else if (flags / 32) % 4 == 1 {
        VerticalMerge::Continuation
    } else if (flags / 32) % 4 == 2 {
        VerticalMerge::Start
    } else {
        VerticalMerge::StartAndEnd
    }
    &&& f.text_flow == (flags / 4) % 8
    &&& f.vertical_alignment == (flags / 128) % 4
    &&& f.width_unit == (flags / 512) % 8
    &&& f.preferred_width == le_u16(d, 2)
    &&& f.fit_text == ((flags / 0x1000) % 2 == 1)
    &&& f.no_wrap == ((flags / 0x2000) % 2 == 1)
    &&& f.hide_mark == ((flags / 0x4000) % 2 == 1)
    &&& forall|i: int, j: int| 0 <= i < 4 && 0 <= j < 4 ==> f.borders@[i]@[j] == d[4 + 4 * i + j]
}

/// Number of cell edges of `sprmTDefTable` operand `o`.
pub open spec fn tdef_edge_count(o: Seq<u8>) -> int {
    o[2] + 1
}

/// Cell edge `k` of `sprmTDefTable` operand `o`.
pub open spec fn tdef_edge(o: Seq<u8>, k: int) -> i16 {
    le_u16(o, 3 + 2 * k) as i16
}

/// Offset of the `TC80` array of `sprmTDefTable` operand `o`.
pub open spec fn tdef_formats_offset(o: Seq<u8>) -> int {
    3 + 2 * tdef_edge_count(o)
}

/// Whether `o` is a valid `sprmTDefTable` operand: its length prefix matches,
/// at most 63 columns, the edge array fits and never decreases, and whole
/// `TC80`s follow it.
pub open spec fn tdef_ok(o: Seq<u8>) -> bool {
    &&& o.len() >= 5
    &&& le_u16(o, 0) != 0
    &&& o.len() == le_u16(o, 0) + 1
    &&& o[2] <= 63
    &&& tdef_formats_offset(o) <= o.len()
    &&& forall|k: int| 0 <= k < o[2] ==> #[trigger] tdef_edge(o, k) <= tdef_edge(o, k + 1)
    &&& (o.len() - tdef_formats_offset(o)) % 20 == 0
}

/// The `TC80` of cell `i` of `sprmTDefTable` operand `o`.
pub open spec fn tdef_tc80(o: Seq<u8>, i: int) -> Seq<u8> {
    o.subrange(tdef_formats_offset(o) + 20 * i, tdef_formats_offset(o) + 20 * i + 20)
}

/// Whether `d` is the row definition of valid operand `o`: one edge per
/// column boundary, and each cell's `TC80`, or the default format where the
/// operand stores fewer `TC80`s than columns.
pub open spec fn definition_matches(d: TableRowDefinition, o: Seq<u8>) -> bool {
    let stored = (o.len() - tdef_formats_offset(o)) / 20;
    &&& d.column_count == o[2]
    &&& d.cell_edges_twips@.len() == tdef_edge_count(o)
    &&& forall|k: int| 0 <= k < tdef_edge_count(o) ==> d.cell_edges_twips@[k] == #[trigger] tdef_edge(o, k)
    &&& d.cells@.len() == o[2]
    &&& forall|i: int|
        0 <= i < o[2] ==> if i < stored {
            tc80_matches(#[trigger] d.cells@[i], tdef_tc80(o, i))
        } else {
            is_default_cell(d.cells@[i])
        }
}

// ---- Table SPRMs.

/// Whether a table property opcode is interpreted.
pub open spec fn table_op_known(op: u16) -> bool {
    op == 0x5400 || op == 0x9602 || op == 0x3403 || op == 0x3404 || op == 0x3615 || op == 0x9407 || op == 0xD605
        || op == 0xD634 || op == 0xD608
}

/// Whether `o` is a valid `sprmTCellPaddingDefault` operand: a whole-row CSSA
/// with a nil or twips width of at most 31680.
pub open spec fn padding_ok(o: Seq<u8>) -> bool {
    &&& o.len() == 7
    &&& o[0] == 6
    &&& o[1] == 0
    &&& o[2] == 1
    &&& o[4] == 0 || o[4] == 3
    &&& o[4] == 3 ==> le_u16(o, 5) <= 31680
}

/// Whether the operand of an interpreted table opcode is valid.
pub open spec fn table_operand_ok(op: u16, o: Seq<u8>) -> bool {
    if op == 0x5400 || op == 0x9602 || op == 0x9407 {
        o.len() == 2
    } else if op == 0x3403 || op == 0x3404 || op == 0x3615 {
        o.len() == 1 && o[0] <= 1
    } else if op == 0xD605 {
        o.len() == 25 && o[0] == 24
    } else if op == 0xD634 {
        padding_ok(o)
    } else if op == 0xD608 {
        tdef_ok(o)
    } else {
        true
    }
}

/// Whether one of the first `n` table SPRMs has an invalid operand.
pub open spec fn table_failure(sprms: Seq<Sprm>, n: int) -> bool {
    exists|i: int|
        0 <= i < n && (#[trigger] sprms[i]).group == PropertyGroup::Table && !table_operand_ok(
            sprms[i].opcode,
            sprms[i].operand@,
        )
}

/// The cell margins after applying the padding SPRMs among the first `n`.
pub open spec fn margins_after(sprms: Seq<Sprm>, n: int) -> CellMargins
    decreases n,
{
    if n <= 0 {
        CellMargins { top: 0, left: 108, bottom: 0, right: 108 }
    } else {
        let m = margins_after(sprms, n - 1);
        let s = sprms[n - 1];
        let o = s.operand@;
        if s.group == PropertyGroup::Table && s.opcode == 0xD634 {
            let width: u16 = if o[4] == 3 {
                le_u16(o, 5)
            } else {
                0
            };
            let sides = o[3];
            CellMargins {
                top: if sides % 2 == 1 {
                    width
                } else {
                    m.top
                },
                left: if (sides / 2) % 2 == 1 {
                    width
                } else {
                    m.left
                },
                bottom: if (sides / 4) % 2 == 1 {
                    width
                } else {
                    m.bottom
                },
                right: if (sides / 8) % 2 == 1 {
                    width
                } else {
                    m.right
                },
            }
        } else {
            m
        }
    }
}

/// The opcodes of the uninterpreted table SPRMs among the first `n`.
pub open spec fn unknown_table_opcodes(sprms: Seq<Sprm>, n: int) -> Seq<u16>
    decreases n,
{
    if n <= 0 {
        seq![]
    } else {
        let prev = unknown_table_opcodes(sprms, n - 1);
        if sprms[n - 1].group == PropertyGroup::Table && !table_op_known(sprms[n - 1].opcode) {
            prev.push(sprms[n - 1].opcode)
        } else {
            prev
        }
    }
}

/// The operand of the last table SPRM with opcode `op` among the first `n`.
pub open spec fn last_table_operand(sprms: Seq<Sprm>, n: int, op: u16) -> Option<Seq<u8>> {
    match last_index(sprms, n, PropertyGroup::Table, op, op, op, op) {
        Some(i) => Some(sprms[i].operand@),
        None => None,
    }
}

/// A word-valued table property: the last operand read as a `u16`.
pub open spec fn table_word_of(sprms: Seq<Sprm>, n: int, op: u16) -> Option<u16> {
    match last_table_operand(sprms, n, op) {
        Some(o) => Some(le_u16(o, 0)),
        None => None,
    }
}

/// A Boolean table property: the last operand's byte.
pub open spec fn table_bool_of(sprms: Seq<Sprm>, n: int, op: u16) -> Option<bool> {
    match last_table_operand(sprms, n, op) {
        Some(o) => Some(o[0] == 1),
        None => None,
    }
}

/// Whether `d` holds the known table properties of the first `n` SPRMs:
/// later scalar modifiers win, padding applies in order, and uninterpreted
/// opcodes are kept in order.
pub open spec fn table_fields_match(d: TablePropertyDelta, sprms: Seq<Sprm>, n: int) -> bool {
    &&& d.justification == table_word_of(sprms, n, 0x5400)
    &&& d.gap_half_twips == table_word_of(sprms, n, 0x9602)
    &&& d.cant_split == table_bool_of(sprms, n, 0x3403)
    &&& d.header == table_bool_of(sprms, n, 0x3404)
    &&& d.autofit == table_bool_of(sprms, n, 0x3615)
    &&& d.row_height_twips == match table_word_of(sprms, n, 0x9407) {
        Some(w) => Some(w as i16),
        None => None,
    }
    &&& match (d.borders80, last_table_operand(sprms, n, 0xD605)) {
        (Some(b), Some(o)) => forall|i: int, j: int| 0 <= i < 6 && 0 <= j < 4 ==> b@[i]@[j] == o[1 + 4 * i + j],
        (None, None) => true,
        _ => false,
    }
    &&& match (d.definition, last_table_operand(sprms, n, 0xD608)) {
        (Some(def), Some(o)) => definition_matches(def, o),
        (None, None) => true,
        _ => false,
    }
    &&& d.default_cell_margins == margins_after(sprms, n)
    &&& d.unsupported_opcodes@ == unknown_table_opcodes(sprms, n)
}

/// A table error with a fixed message.
fn invalid_table(text: &str) -> (res: DocError)
    ensures
        res.kind() == ErrorKind::InvalidTable,
{
    DocError::InvalidTable(message(text))
}

/// A resource-limit error.
fn resource_limit(resource: &'static str, actual: usize, limit: usize) -> (res: DocError)
    ensures
        res.kind() == ErrorKind::ResourceLimit,
{
    DocError::ResourceLimit { resource, actual: actual as u64, limit: limit as u64 }
}

/// Reads one `TC80` cell descriptor.
fn parse_tc80(data: &[u8]) -> (res: CellFormat)
    requires
        data@.len() == 20,
    ensures
        tc80_matches(res, data@),
{
    let flags = data[0] as u16 + 256 * (data[1] as u16);
    let h = flags % 4;
    let horizontal_merge = if h == 0 {
        HorizontalMerge::Unmerged
    } else if h == 1 {
        HorizontalMerge::Continuation
    } else {
        HorizontalMerge::Start
    };
    let v = (flags / 32) % 4;
    let vertical_merge = if v == 0 {
        VerticalMerge::Unmerged
    } else if v == 1 {
        VerticalMerge::Continuation
    } else if v == 2 {
        VerticalMerge::Start
    } else {
        VerticalMerge::StartAndEnd
    };
    let borders: [[u8; 4]; 4] = [
        [data[4], data[5], data[6], data[7]],
        [data[8], data[9], data[10], data[11]],
        [data[12], data[13], data[14], data[15]],
        [data[16], data[17], data[18], data[19]],
    ];
    let res = CellFormat {
        horizontal_merge,
        vertical_merge,
        text_flow: ((flags / 4) % 8) as u8,
        vertical_alignment: ((flags / 128) % 4) as u8,
        width_unit: ((flags / 512) % 8) as u8,
        preferred_width: data[2] as u16 + 256 * (data[3] as u16),
        fit_text: (flags / 0x1000) % 2 == 1,
        no_wrap: (flags / 0x2000) % 2 == 1,
        hide_mark: (flags / 0x4000) % 2 == 1,
        borders,
    };
    assert forall|i: int, j: int| 0 <= i < 4 && 0 <= j < 4 implies res.borders@[i]@[j] == data@[4 + 4 * i + j] by {
        if i == 0 {
            assert(res.borders@[0]@ =~= seq![data@[4], data@[5], data@[6], data@[7]]);
        } else if i == 1 {
            assert(res.borders@[1]@ =~= seq![data@[8], data@[9], data@[10], data@[11]]);
        } else if i == 2 {
            assert(res.borders@[2]@ =~= seq![data@[12], data@[13], data@[14], data@[15]]);
        } else {
            assert(res.borders@[3]@ =~= seq![data@[16], data@[17], data@[18], data@[19]]);
        }
    }
    res
}

/// Decodes a `sprmTDefTable` operand.
#[verifier::rlimit(60)]
#[verifier::spinoff_prover]
pub fn parse_definition(sprm: &Sprm) -> (res: Result<TableRowDefinition>)
    ensures
        tdef_ok(sprm.operand@) ==> (res matches Ok(d) && definition_matches(d, sprm.operand@)),
        !tdef_ok(sprm.operand@) ==> res is Err && res->Err_0.kind() == ErrorKind::InvalidTable,
{
    let operand = sprm.operand.as_slice();
    let ghost o = operand@;
    let len = operand.len();
    if len < 5 {
        return Err(invalid_table("sprmTDefTable operand is shorter than 5 bytes"));
    }
    let cb = operand[0] as usize + 256 * (operand[1] as usize);
    assert(cb == le_u16(o, 0));
    if cb == 0 || len != cb + 1 {
        return Err(invalid_table("sprmTDefTable cb does not match its operand length"));
    }
    let column_count = operand[2];
    if column_count > 63 {
        return Err(invalid_table("sprmTDefTable column count exceeds 63"));
    }
    let edge_count = column_count as usize + 1;
    let formats_offset = 3 + 2 * edge_count;
    if formats_offset > len {
        return Err(invalid_table("sprmTDefTable cell edge array is truncated"));
    }
    let mut cell_edges_twips: Vec<i16> = Vec::new();
    let mut k: usize = 0;
    while k < edge_count
        invariant
            o == operand@,
            len == o.len(),
            edge_count == tdef_edge_count(o),
            formats_offset == tdef_formats_offset(o),
            formats_offset <= len,
            k <= edge_count,
            cell_edges_twips@.len() == k,
            forall|j: int| 0 <= j < k ==> cell_edges_twips@[j] == #[trigger] tdef_edge(o, j),
        decreases edge_count - k,
    {
        let raw = operand[3 + 2 * k] as u16 + 256 * (operand[4 + 2 * k] as u16);
        assert(raw == le_u16(o, 3 + 2 * k));
        cell_edges_twips.push(#[verifier::truncate] (raw as i16));
        k = k + 1;
    }
    let mut j: usize = 0;
    while j + 1 < edge_count
        invariant
            o == sprm.operand@,
            edge_count == tdef_edge_count(o),
            edge_count >= 1,
            cell_edges_twips@.len() == edge_count,
            forall|q: int| 0 <= q < edge_count ==> cell_edges_twips@[q] == #[trigger] tdef_edge(o, q),
            j + 1 <= edge_count,
            forall|q: int| 0 <= q < j ==> #[trigger] tdef_edge(o, q) <= tdef_edge(o, q + 1),
        decreases edge_count - j,
    {
        if cell_edges_twips[j] > cell_edges_twips[j + 1] {
            assert(!(tdef_edge(o, j as int) <= tdef_edge(o, j + 1)));
            return Err(invalid_table("sprmTDefTable cell edges are decreasing"));
        }
        j = j + 1;
    }
    if (len - formats_offset) % TC80_SIZE != 0 {
        return Err(invalid_table("sprmTDefTable has trailing bytes that are not whole TC80s"));
    }
    let stored = (len - formats_offset) / TC80_SIZE;
    let mut cells: Vec<CellFormat> = Vec::new();
    let mut i: usize = 0;
    while i < column_count as usize
        invariant
            o == operand@,
            len == o.len(),
            formats_offset == tdef_formats_offset(o),
            formats_offset <= len,
            (len - formats_offset) % 20 == 0,
            stored == (len - formats_offset) / 20,
            column_count == o[2],
            i <= column_count,
            cells@.len() == i,
            forall|q: int|
                0 <= q < i ==> if q < stored {
                    tc80_matches(#[trigger] cells@[q], tdef_tc80(o, q))
                } else {
                    is_default_cell(cells@[q])
                },
        decreases column_count - i,
    {
        if i < stored {
            let start = formats_offset + 20 * i;
            let tc = &operand[start..start + 20];
            assert(tc@ == tdef_tc80(o, i as int));
            cells.push(parse_tc80(tc));
        } else {
            cells.push(CellFormat::default());
        }
        i = i + 1;
    }
    Ok(TableRowDefinition { column_count, cell_edges_twips, cells })
}

/// Reads a word-valued table operand.
fn table_word(sprm: &Sprm) -> (res: Result<u16>)
    ensures
        sprm.operand@.len() == 2 ==> res == Ok::<u16, DocError>(le_u16(sprm.operand@, 0)),
        sprm.operand@.len() != 2 ==> res is Err && res->Err_0.kind() == ErrorKind::InvalidTable,
{
    if sprm.operand.len() != 2 {
        return Err(invalid_table("table SPRM does not have a two-byte operand"));
    }
    Ok(sprm.operand[0] as u16 + 256 * (sprm.operand[1] as u16))
}

/// Reads a signed word-valued table operand.
fn table_signed_word(sprm: &Sprm) -> (res: Result<i16>)
    ensures
        sprm.operand@.len() == 2 ==> res == Ok::<i16, DocError>(le_u16(sprm.operand@, 0) as i16),
        sprm.operand@.len() != 2 ==> res is Err && res->Err_0.kind() == ErrorKind::InvalidTable,
{
    let w = table_word(sprm)?;
    Ok(#[verifier::truncate] (w as i16))
}

/// Reads a `Bool8` table operand.
fn table_bool(sprm: &Sprm) -> (res: Result<bool>)
    ensures
        sprm.operand@.len() == 1 && sprm.operand@[0] <= 1 ==> res == Ok::<bool, DocError>(sprm.operand@[0] == 1),
        !(sprm.operand@.len() == 1 && sprm.operand@[0] <= 1) ==> res is Err && res->Err_0.kind()
            == ErrorKind::InvalidTable,
{
    if sprm.operand.len() == 1 && sprm.operand[0] <= 1 {
        Ok(sprm.operand[0] == 1)
    } else {
        Err(invalid_table("table SPRM has an invalid Bool8"))
    }
}

/// Reads a `sprmTTableBorders80` operand.
fn table_borders80(sprm: &Sprm) -> (res: Result<[[u8; 4]; 6]>)
    ensures
        sprm.operand@.len() == 25 && sprm.operand@[0] == 24 ==> (res matches Ok(b) && forall|i: int, j: int|
            0 <= i < 6 && 0 <= j < 4 ==> b@[i]@[j] == sprm.operand@[1 + 4 * i + j]),
        !(sprm.operand@.len() == 25 && sprm.operand@[0] == 24) ==> res is Err && res->Err_0.kind()
            == ErrorKind::InvalidTable,
{
    let o = sprm.operand.as_slice();
    if o.len() != 25 || o[0] != 24 {
        return Err(invalid_table("sprmTTableBorders80 must contain a 24-byte payload"));
    }
    let borders: [[u8; 4]; 6] = [
        [o[1], o[2], o[3], o[4]],
        [o[5], o[6], o[7], o[8]],
        [o[9], o[10], o[11], o[12]],
        [o[13], o[14], o[15], o[16]],
        [o[17], o[18], o[19], o[20]],
        [o[21], o[22], o[23], o[24]],
    ];
    assert forall|i: int, j: int| 0 <= i < 6 && 0 <= j < 4 implies borders@[i]@[j] == o@[1 + 4 * i + j] by {
        if i == 0 {
            assert(borders@[0]@ =~= seq![o@[1], o@[2], o@[3], o@[4]]);
        } else if i == 1 {
            assert(borders@[1]@ =~= seq![o@[5], o@[6], o@[7], o@[8]]);
        } else if i == 2 {
            assert(borders@[2]@ =~= seq![o@[9], o@[10], o@[11], o@[12]]);
        } else if i == 3 {
            assert(borders@[3]@ =~= seq![o@[13], o@[14], o@[15], o@[16]]);
        } else if i == 4 {
            assert(borders@[4]@ =~= seq![o@[17], o@[18], o@[19], o@[20]]);
        } else {
            assert(borders@[5]@ =~= seq![o@[21], o@[22], o@[23], o@[24]]);
        }
    }
    Ok(borders)
}

/// Applies a `sprmTCellPaddingDefault` to the row's default cell margins.
fn apply_default_cell_margins(sprm: &Sprm, margins: CellMargins) -> (res: Result<CellMargins>)
    ensures
        padding_ok(sprm.operand@) ==> (res matches Ok(m) && {
            let o = sprm.operand@;
            let width: u16 = if o[4] == 3 {
                le_u16(o, 5)
            } else {
                0
            };
            let sides = o[3];
            m == CellMargins {
                top: if sides % 2 == 1 {
                    width
                } else {
                    margins.top
                },
                left: if (sides / 2) % 2 == 1 {
                    width
                } else {
                    margins.left
                },
                bottom: if (sides / 4) % 2 == 1 {
                    width
                } else {
                    margins.bottom
                },
                right: if (sides / 8) % 2 == 1 {
                    width
                } else {
                    margins.right
                },
            }
        }),
        !padding_ok(sprm.operand@) ==> res is Err && res->Err_0.kind() == ErrorKind::InvalidTable,
{
    let o = sprm.operand.as_slice();
    if o.len() != 7 || o[0] != 6 {
        return Err(invalid_table("sprmTCellPaddingDefault must contain a 6-byte CSSA"));
    }
    if o[1] != 0 || o[2] != 1 {
        return Err(invalid_table("sprmTCellPaddingDefault must target the whole row"));
    }
    let width: u16 = if o[4] == 0 {
        0
    } else if o[4] == 3 {
        o[5] as u16 + 256 * (o[6] as u16)
    } else {
        return Err(invalid_table("sprmTCellPaddingDefault has an unsupported width type"));
    };
    if width > 31680 {
        return Err(invalid_table("sprmTCellPaddingDefault width exceeds 31680"));
    }
    let sides = o[3];
    let mut m = margins;
    if sides % 2 == 1 {
        m.top = width;
    }
    if (sides / 2) % 2 == 1 {
        m.left = width;
    }
    if (sides / 4) % 2 == 1 {
        m.bottom = width;
    }
    if (sides / 8) % 2 == 1 {
        m.right = width;
    }
    Ok(m)
}

/// Applies table SPRMs in source order. Later scalar modifiers win.
#[verifier::rlimit(80)]
pub fn apply_table_sprms(sprms: &[Sprm]) -> (res: Result<TablePropertyDelta>)
    ensures
        table_failure(sprms@, sprms@.len() as int) ==> res is Err && res->Err_0.kind() == ErrorKind::InvalidTable,
        !table_failure(sprms@, sprms@.len() as int) ==> (res matches Ok(d) && table_fields_match(
            d,
            sprms@,
            sprms@.len() as int,
        )),
{
    let mut result = TablePropertyDelta {
        definition: None,
        justification: None,
        gap_half_twips: None,
        borders80: None,
        default_cell_margins: CellMargins::default(),
        autofit: None,
        cant_split: None,
        header: None,
        row_height_twips: None,
        unsupported_opcodes: Vec::new(),
    };
    let mut k: usize = 0;
    while k < sprms.len()
        invariant
            k <= sprms@.len(),
            !table_failure(sprms@, k as int),
            table_fields_match(result, sprms@, k as int),
        decreases sprms@.len() - k,
    {
        let sprm = &sprms[k];
        let ghost s = sprms@;
        if sprm.group == PropertyGroup::Table {
            let op = sprm.opcode;
            if op == 0x5400 {
                match table_word(sprm) {
                    Ok(v) => result.justification = Some(v),
                    Err(e) => {
                        assert(table_failure(s, s.len() as int)) by {
                            assert(s[k as int] == *sprm);
                        }
                        return Err(e);
                    },
                }
            } else if op == 0x9602 {
                match table_word(sprm) {
                    Ok(v) => result.gap_half_twips = Some(v),
                    Err(e) => {
                        assert(table_failure(s, s.len() as int)) by {
                            assert(s[k as int] == *sprm);
                        }
                        return Err(e);
                    },
                }
            } else if op == 0x3403 {
                match table_bool(sprm) {
                    Ok(v) => result.cant_split = Some(v),
                    Err(e) => {
                        assert(table_failure(s, s.len() as int)) by {
                            assert(s[k as int] == *sprm);
                        }
                        return Err(e);
                    },
                }
            } else if op == 0x3404 {
                match table_bool(sprm) {
                    Ok(v) => result.header = Some(v),
                    Err(e) => {
                        assert(table_failure(s, s.len() as int)) by {
                            assert(s[k as int] == *sprm);
                        }
                        return Err(e);
                    },
                }
            } else if op == 0x3615 {
                match table_bool(sprm) {
                    Ok(v) => result.autofit = Some(v),
                    Err(e) => {
                        assert(table_failure(s, s.len() as int)) by {
                            assert(s[k as int] == *sprm);
                        }
                        return Err(e);
                    },
                }
            } else if op == 0x9407 {
                match table_signed_word(sprm) {
                    Ok(v) => result.row_height_twips = Some(v),
                    Err(e) => {
                        assert(table_failure(s, s.len() as int)) by {
                            assert(s[k as int] == *sprm);
                        }
                        return Err(e);
                    },
                }
            } else if op == 0xD605 {
                match table_borders80(sprm) {
                    Ok(v) => result.borders80 = Some(v),
                    Err(e) => {
                        assert(table_failure(s, s.len() as int)) by {
                            assert(s[k as int] == *sprm);
                        }
                        return Err(e);
                    },
                }
            } else if op == 0xD634 {
                match apply_default_cell_margins(sprm, result.default_cell_margins) {
                    Ok(m) => result.default_cell_margins = m,
                    Err(e) => {
                        assert(table_failure(s, s.len() as int)) by {
                            assert(s[k as int] == *sprm);
                        }
                        return Err(e);
                    },
                }
            } else if op == SPRM_T_DEF_TABLE {
                match parse_definition(sprm) {
                    Ok(d) => result.definition = Some(d),
                    Err(e) => {
                        assert(table_failure(s, s.len() as int)) by {
                            assert(s[k as int] == *sprm);
                        }
                        return Err(e);
                    },
                }
            } else {
                result.unsupported_opcodes.push(op);
            }
        }
        proof {
            assert(!table_failure(s, k as int + 1)) by {
                if table_failure(s, k as int + 1) {
                    let i = choose|i: int|
                        0 <= i < k + 1 && (#[trigger] s[i]).group == PropertyGroup::Table && !table_operand_ok(
                            s[i].opcode,
                            s[i].operand@,
                        );
                    assert(i == k);
                }
            }
        }
        k = k + 1;
    }
    Ok(result)
}

// ---- Rows and tables.

/// The table depth of a paragraph: its explicit depth (zero when negative),
/// else one for an in-table paragraph and zero otherwise.
pub open spec fn depth_of(p: ParagraphPropertyDelta) -> u32 {
    match p.table_depth {
        Some(d) => if d < 0 {
            0
        } else {
            d as u32
        },
        None => if p.in_table == Some(true) {
            1
        } else {
            0
        },
    }
}

/// The paragraph's table depth.
fn paragraph_depth(properties: &ParagraphPropertyDelta) -> (res: u32)
    ensures
        res == depth_of(*properties),
{
    match properties.table_depth {
        Some(d) => if d < 0 {
            0
        } else {
            d as u32
        },
        None => if properties.in_table == Some(true) {
            1
        } else {
            0
        },
    }
}

/// The source unit of `story` at global CP `cp`.
pub open spec fn story_unit(story: Story, cp: int) -> u16 {
    story.content.utf16@[cp - story.cp_start]
}

/// Whether the cells of row `r` of `story` partition it from its start: each
/// follows the previous one, ends in its cell mark (a cell mark at depth one,
/// a paragraph mark in a nested table), carries the format the row
/// definition gives its column, and the row ends after the last one.
pub open spec fn cells_chained(r: TableRow, story: Story) -> bool {
    let c = r.cells@;
    &&& r.depth >= 1
    &&& story.cp_start <= r.cp_start < r.cp_end <= story.cp_end
    &&& r.properties.definition matches Some(d) && c.len() == d.column_count && forall|i: int|
        0 <= i < c.len() ==> (#[trigger] c[i]).format == d.cells@[i]
    &&& forall|i: int|
        0 <= i < c.len() ==> {
            &&& (#[trigger] c[i]).index == i
            &&& c[i].cp_end == c[i].cp_content_end + 1
            &&& r.cp_start <= c[i].cp_content_end < r.cp_end
            &&& c[i].cp_content_end - story.cp_start < story.content.utf16@.len()
            &&& story_unit(story, c[i].cp_content_end as int) == if r.depth == 1 {
                7u16
            } else {
                0x000Du16
            }
        }
    &&& c.len() > 0 ==> c[0].cp_start == r.cp_start
    &&& forall|i: int| 0 <= i < c.len() - 1 ==> (#[trigger] c[i + 1]).cp_start == c[i].cp_end
}

/// Whether `t` is a table of `story`: consecutive rows at its depth, each
/// starting where the previous one ends, spanning its CP range.
pub open spec fn table_wf(t: Table, story: Story) -> bool {
    let rows = t.rows@;
    &&& rows.len() > 0
    &&& t.cp_start == rows[0].cp_start
    &&& t.cp_end == rows.last().cp_end
    &&& forall|i: int| 0 <= i < rows.len() ==> (#[trigger] rows[i]).depth == t.depth && cells_chained(rows[i], story)
    &&& forall|i: int| 0 <= i < rows.len() - 1 ==> (#[trigger] rows[i + 1]).cp_start == rows[i].cp_end
}

/// Whether table `a` comes no later than `b`: by start CP, then depth.
pub open spec fn table_before(a: Table, b: Table) -> bool {
    a.cp_start < b.cp_start || (a.cp_start == b.cp_start && a.depth <= b.depth)
}

/// The start of paragraph run `p` clipped to `story`.
pub open spec fn clipped_start(p: SemanticParagraphRun, story: Story) -> u32 {
    if p.source.cp_start > story.cp_start {
        p.source.cp_start
    } else {
        story.cp_start
    }
}

/// The end of paragraph run `p` clipped to `story`.
pub open spec fn clipped_end(p: SemanticParagraphRun, story: Story) -> u32 {
    if p.source.cp_end < story.cp_end {
        p.source.cp_end
    } else {
        story.cp_end
    }
}

/// Whether paragraph run `p` is a table-terminating paragraph inside `story`:
/// it is non-empty there, has a table depth, and carries the TTP mark of that depth.
pub open spec fn ends_row(p: SemanticParagraphRun, story: Story) -> bool {
    &&& clipped_start(p, story) < clipped_end(p, story)
    &&& depth_of(p.properties) > 0
    &&& if depth_of(p.properties) == 1 {
        p.properties.table_terminating_paragraph == Some(true)
    } else {
        p.properties.inner_table_terminating_paragraph == Some(true)
    }
}

/// Whether some row of `rs` has `depth` and ends at `cp_end`.
pub open spec fn rows_have(rs: Seq<TableRow>, depth: u32, cp_end: u32) -> bool {
    exists|j: int| 0 <= j < rs.len() && (#[trigger] rs[j]).depth == depth && rs[j].cp_end == cp_end
}

/// Whether some table of `ts` has a row of `depth` that ends at `cp_end`.
pub open spec fn tables_have(ts: Seq<Table>, depth: u32, cp_end: u32) -> bool {
    exists|i: int| 0 <= i < ts.len() && rows_have((#[trigger] ts[i]).rows@, depth, cp_end)
}

/// Whether each of the first `n` table-terminating paragraphs of `runs` inside
/// `story` closes a row of `ts`.
pub open spec fn rows_cover_marks(runs: Seq<SemanticParagraphRun>, story: Story, n: int, ts: Seq<Table>) -> bool {
    forall|k: int|
        0 <= k < n && #[trigger] ends_row(runs[k], story) ==> tables_have(
            ts,
            depth_of(runs[k].properties),
            clipped_end(runs[k], story),
        )
}

/// Whether row `r` is closed by a table-terminating paragraph of `runs` inside `story`.
pub open spec fn row_from_mark(runs: Seq<SemanticParagraphRun>, story: Story, r: TableRow) -> bool {
    exists|k: int|
        0 <= k < runs.len() && #[trigger] ends_row(runs[k], story) && r.depth == depth_of(runs[k].properties) && r.cp_end
            == clipped_end(runs[k], story)
}

/// Whether every row of every table of `ts` is closed by a table-terminating paragraph of `runs`.
pub open spec fn marks_cover_rows(runs: Seq<SemanticParagraphRun>, story: Story, ts: Seq<Table>) -> bool {
    forall|i: int, j: int|
        0 <= i < ts.len() && 0 <= j < ts[i].rows@.len() ==> row_from_mark(runs, story, #[trigger] ts[i].rows@[j])
}

/// Rows found in a list stay found after an insertion, and the inserted row is found.
proof fn lemma_rows_insert(rs: Seq<TableRow>, p: int, r: TableRow, d: u32, e: u32)
    requires
        0 <= p <= rs.len(),
    ensures
        rows_have(rs, d, e) ==> rows_have(rs.insert(p, r), d, e),
        r.depth == d && r.cp_end == e ==> rows_have(rs.insert(p, r), d, e),
        rows_have(rs, d, e) ==> rows_have(rs.push(r), d, e),
        r.depth == d && r.cp_end == e ==> rows_have(rs.push(r), d, e),
{
    let n = rs.insert(p, r);
    if rows_have(rs, d, e) {
        let j = choose|j: int| 0 <= j < rs.len() && (#[trigger] rs[j]).depth == d && rs[j].cp_end == e;
        if j < p {
            assert(n[j] == rs[j]);
        } else {
            assert(n[j + 1] == rs[j]);
        }
        assert(rs.push(r)[j] == rs[j]);
    }
    if r.depth == d && r.cp_end == e {
        assert(n[p] == r);
        assert(rs.push(r)[rs.len() as int] == r);
    }
}

/// A row found in a non-empty list is its first row or is found after removing it.
proof fn lemma_rows_remove_first(rs: Seq<TableRow>, d: u32, e: u32)
    requires
        rs.len() > 0,
        rows_have(rs, d, e),
    ensures
        (rs[0].depth == d && rs[0].cp_end == e) || rows_have(rs.remove(0), d, e),
{
    let j = choose|j: int| 0 <= j < rs.len() && (#[trigger] rs[j]).depth == d && rs[j].cp_end == e;
    if j > 0 {
        assert(rs.remove(0)[j - 1] == rs[j]);
    }
}

/// Rows found among tables stay found after an insertion, and the inserted table's rows are found.
proof fn lemma_tables_insert(ts: Seq<Table>, p: int, t: Table, d: u32, e: u32)
    requires
        0 <= p <= ts.len(),
    ensures
        tables_have(ts, d, e) ==> tables_have(ts.insert(p, t), d, e),
        rows_have(t.rows@, d, e) ==> tables_have(ts.insert(p, t), d, e),
        tables_have(ts, d, e) ==> tables_have(ts.push(t), d, e),
        rows_have(t.rows@, d, e) ==> tables_have(ts.push(t), d, e),
{
    let n = ts.insert(p, t);
    if tables_have(ts, d, e) {
        let i = choose|i: int| 0 <= i < ts.len() && rows_have((#[trigger] ts[i]).rows@, d, e);
        if i < p {
            assert(n[i] == ts[i]);
        } else {
            assert(n[i + 1] == ts[i]);
        }
        assert(ts.push(t)[i] == ts[i]);
    }
    if rows_have(t.rows@, d, e) {
        assert(n[p] == t);
        assert(ts.push(t)[ts.len() as int] == t);
    }
}

/// A row found among non-empty tables is in the first table or found after removing it.
proof fn lemma_tables_remove_first(ts: Seq<Table>, d: u32, e: u32)
    requires
        ts.len() > 0,
        tables_have(ts, d, e),
    ensures
        rows_have(ts[0].rows@, d, e) || tables_have(ts.remove(0), d, e),
{
    let i = choose|i: int| 0 <= i < ts.len() && rows_have((#[trigger] ts[i]).rows@, d, e);
    if i > 0 {
        assert(ts.remove(0)[i - 1] == ts[i]);
    }
}

/// Replacing the last table by one that keeps its rows keeps every row found.
proof fn lemma_tables_grow_last(ts: Seq<Table>, t: Table, d: u32, e: u32)
    requires
        ts.len() > 0,
        rows_have(ts.last().rows@, d, e) ==> rows_have(t.rows@, d, e),
        tables_have(ts, d, e),
    ensures
        tables_have(ts.drop_last().push(t), d, e),
{
    let i = choose|i: int| 0 <= i < ts.len() && rows_have((#[trigger] ts[i]).rows@, d, e);
    let n = ts.drop_last().push(t);
    if i < ts.len() - 1 {
        assert(n[i] == ts[i]);
    } else {
        assert(n[i] == t);
    }
}

/// What `TableCollection::parse` gives for `story`: a table error outside
/// the main story; otherwise a table or resource failure, or tables of the
/// story in CP order within the limits.
pub open spec fn tables_result(story: Story, limits: DocLimits, res: Result<TableCollection>) -> bool {
    if story.kind != StoryKind::Main {
        res is Err && res->Err_0.kind() == ErrorKind::InvalidTable
    } else {
        match res {
            Err(e) => e.kind() == ErrorKind::InvalidTable || e.kind() == ErrorKind::ResourceLimit,
            Ok(c) => {
                let ts = c.spec_tables();
                &&& ts.len() <= limits.max_tables
                &&& forall|i: int| 0 <= i < ts.len() ==> table_wf(#[trigger] ts[i], story)
                &&& forall|i: int, j: int| 0 <= i < j < ts.len() ==> table_before(#[trigger] ts[i], #[trigger] ts[j])
            },
        }
    }
}

/// The offsets among the first `n` of `units` that hold a `0x0007` cell mark.
pub open spec fn bell_marks(units: Seq<u16>, n: int) -> Seq<int>
    decreases n,
{
    if n <= 0 {
        seq![]
    } else if units[n - 1] == 7 {
        bell_marks(units, n - 1).push(n - 1)
    } else {
        bell_marks(units, n - 1)
    }
}

/// Whether paragraph run `p` marks a nested cell or row end of the row
/// `[a, b)` at `depth`.
pub open spec fn nested_mark_run(p: SemanticParagraphRun, a: u32, b: u32, depth: u32) -> bool {
    &&& a <= p.source.cp_start
    &&& p.source.cp_end <= b
    &&& depth_of(p.properties) == depth
    &&& (p.properties.inner_table_cell == Some(true) || p.properties.inner_table_terminating_paragraph == Some(true))
}

/// The row-relative offsets of the nested cell marks that the first `n` runs
/// give for the row `[a, b)` at `depth`, in run order; `None` when one of
/// them does not end in a paragraph mark inside the row.
pub open spec fn nested_marks(story: Story, runs: Seq<SemanticParagraphRun>, n: int, a: u32, b: u32, depth: u32) -> Option<
    Seq<int>,
>
    decreases n,
{
    if n <= 0 {
        Some(seq![])
    } else {
        match nested_marks(story, runs, n - 1, a, b, depth) {
            None => None,
            Some(c) => {
                let p = runs[n - 1];
                let mark = p.source.cp_end - 1;
                if !nested_mark_run(p, a, b, depth) {
                    Some(c)
                } else if p.source.cp_end == 0 || mark < a {
                    None
                } else if mark - story.cp_start >= story.content.utf16@.len() || story.content.utf16@[mark
                    - story.cp_start] != 0x000D {
                    None
                } else {
                    Some(c.push(mark - a))
                }
            },
        }
    }
}

/// Once a nested mark fails, the marks of more runs fail too.
proof fn lemma_nested_marks_fail(story: Story, runs: Seq<SemanticParagraphRun>, k: int, n: int, a: u32, b: u32, depth: u32)
    requires
        0 <= k <= n,
        nested_marks(story, runs, k, a, b, depth) is None,
    ensures
        nested_marks(story, runs, n, a, b, depth) is None,
    decreases n - k,
{
    if k < n {
        lemma_nested_marks_fail(story, runs, k, n - 1, a, b, depth);
    }
}

/// The cell-mark offsets of the row `[a, b)` at `depth` whose text is `units`:
/// its `0x0007` units at depth one, else the nested marks of `runs`.
pub open spec fn row_mark_offsets(story: Story, runs: Seq<SemanticParagraphRun>, units: Seq<u16>, a: u32, b: u32, depth: u32) -> Option<
    Seq<int>,
> {
    if depth == 1 {
        Some(bell_marks(units, units.len() as int))
    } else {
        nested_marks(story, runs, runs.len() as int, a, b, depth)
    }
}

/// Sorts marks ascending (insertion sort).
fn sort_marks(marks: &mut Vec<usize>)
    ensures
        final(marks)@.to_multiset() == old(marks)@.to_multiset(),
        forall|a: int, b: int| 0 <= a < b < final(marks)@.len() ==> final(marks)@[a] <= final(marks)@[b],
{
    let n = marks.len();
    let mut i: usize = 0;
    while i < n
        invariant
            n == marks@.len(),
            0 <= i <= n,
            forall|a: int, b: int| 0 <= a < b < i ==> marks@[a] <= marks@[b],
            marks@.to_multiset() == old(marks)@.to_multiset(),
        decreases n - i,
    {
        let mut j = i;
        while j > 0 && marks[j - 1] > marks[j]
            invariant
                n == marks@.len(),
                0 <= j <= i < n,
                marks@.to_multiset() == old(marks)@.to_multiset(),
                forall|a: int, b: int| 0 <= a < b <= i && a != j && b != j ==> marks@[a] <= marks@[b],
                forall|b: int| j < b <= i ==> marks@[j as int] <= marks@[b],
            decreases j,
        {
            let ghost before = marks@;
            let x = marks[j - 1];
            let y = marks[j];
            marks.set(j - 1, y);
            marks.set(j, x);
            proof {
                crate::seq_util::lemma_swap_multiset(before, j - 1, j as int);
            }
            j = j - 1;
        }
        proof {
            assert forall|a: int, b: int| 0 <= a < b < i + 1 implies marks@[a] <= marks@[b] by {
                if b == j && a < j - 1 {
                    assert(marks@[a] <= marks@[j - 1]);
                }
            }
        }
        i = i + 1;
    }
}

/// The row-relative offsets of the cell and TTP marks of the row
/// `[cp_start, cp_end)` at `depth`: the cell marks of its units at depth one,
/// else the final paragraph marks of the nested cell and TTP paragraphs of
/// that depth inside the row, ascending.
fn row_marks(
    story: &Story,
    formatting: &SemanticFormattingIndex,
    units: &[u16],
    cp_start: u32,
    cp_end: u32,
    depth: u32,
) -> (res: Result<Vec<usize>>)
    requires
        story.cp_start <= cp_start,
        cp_end - story.cp_start <= story.content.utf16@.len(),
        units@ == story.content.utf16@.subrange(cp_start - story.cp_start, cp_end - story.cp_start),
        cp_start <= cp_end,
    ensures
        res is Ok <==> row_mark_offsets(*story, formatting.paragraph_runs@, units@, cp_start, cp_end, depth) is Some,
        res is Err ==> res->Err_0.kind() == ErrorKind::InvalidTable,
        res matches Ok(m) ==> {
            let o = row_mark_offsets(*story, formatting.paragraph_runs@, units@, cp_start, cp_end, depth).unwrap();
            &&& m@.len() == o.len()
            &&& m@.len() > 0 ==> (m@[m@.len() - 1] == units@.len() - 1 <==> o.contains(units@.len() - 1))
            &&& forall|a: int, b: int| 0 <= a < b < m@.len() ==> m@[a] <= m@[b]
            &&& forall|i: int|
                0 <= i < m@.len() ==> (#[trigger] m@[i]) < cp_end - cp_start && cp_start + m@[i] - story.cp_start
                    < story.content.utf16@.len() && story_unit(*story, cp_start + m@[i]) == if depth == 1 {
                    7u16
                } else {
                    0x000Du16
                }
        },
{
    let ghost u = story.content.utf16@;
    if depth == 1 {
        let mut marks: Vec<usize> = Vec::new();
        let mut k: usize = 0;
        while k < units.len()
            invariant
                u == story.content.utf16@,
                cp_end - story.cp_start <= u.len(),
                units@ == u.subrange(cp_start - story.cp_start, cp_end - story.cp_start),
                story.cp_start <= cp_start <= cp_end,
                depth == 1,
                k <= units@.len(),
                forall|a: int, b: int| 0 <= a < b < marks@.len() ==> marks@[a] < marks@[b],
                forall|i: int| 0 <= i < marks@.len() ==> (#[trigger] marks@[i]) < k,
                forall|i: int|
                    0 <= i < marks@.len() ==> (#[trigger] marks@[i]) < cp_end - cp_start && cp_start + marks@[i]
                        - story.cp_start < u.len() && story_unit(*story, cp_start + marks@[i]) == 7u16,
                marks@.len() == bell_marks(units@, k as int).len(),
                forall|i: int| 0 <= i < marks@.len() ==> #[trigger] marks@[i] as int == bell_marks(units@, k as int)[i],
            decreases units@.len() - k,
        {
            let ghost before = marks@;
            if units[k] == 7 {
                assert(units@[k as int] == u[cp_start - story.cp_start + k]);
                marks.push(k);
            }
            k = k + 1;
            proof {
                assert forall|i: int| 0 <= i < marks@.len() implies #[trigger] marks@[i] as int == bell_marks(
                    units@,
                    k as int,
                )[i] by {
                    if i < before.len() {
                        assert(marks@[i] == before[i]);
                    }
                }
            }
        }
        proof {
            let o = bell_marks(units@, units@.len() as int);
            if marks@.len() > 0 {
                let n = marks@.len() - 1;
                if marks@[n] == units@.len() - 1 {
                    assert(o[n] == units@.len() - 1);
                }
                if o.contains(units@.len() - 1) {
                    let j = choose|j: int| 0 <= j < o.len() && o[j] == units@.len() - 1;
                    assert(marks@[j] as int == o[j]);
                    if j < n {
                        assert(marks@[j] < marks@[n]);
                    }
                }
            }
        }
        return Ok(marks);
    }
    let runs = &formatting.paragraph_runs;
    let mut marks: Vec<usize> = Vec::new();
    let mut k: usize = 0;
    while k < runs.len()
        invariant
            story.cp_start <= cp_start <= cp_end,
            depth != 1,
            k <= runs@.len(),
            forall|i: int|
                0 <= i < marks@.len() ==> (#[trigger] marks@[i]) < cp_end - cp_start && cp_start + marks@[i]
                    - story.cp_start < u.len() && story_unit(*story, cp_start + marks@[i]) == 0x000Du16,
            u == story.content.utf16@,
            runs@ == formatting.paragraph_runs@,
            nested_marks(*story, runs@, k as int, cp_start, cp_end, depth) matches Some(c) && c.len() == marks@.len()
                && forall|i: int| 0 <= i < c.len() ==> #[trigger] c[i] == marks@[i] as int,
        decreases runs@.len() - k,
    {
        let paragraph = &runs[k];
        let ghost before = marks@;
        k = k + 1;
        if paragraph.source.cp_start < cp_start || paragraph.source.cp_end > cp_end {
            continue;
        }
        if paragraph_depth(&paragraph.properties) != depth {
            continue;
        }
        let is_cell = paragraph.properties.inner_table_cell == Some(true);
        let is_ttp = paragraph.properties.inner_table_terminating_paragraph == Some(true);
        if !is_cell && !is_ttp {
            continue;
        }
        if paragraph.source.cp_end == 0 || paragraph.source.cp_end - 1 < cp_start {
            proof {
                lemma_nested_marks_fail(*story, runs@, k as int, runs@.len() as int, cp_start, cp_end, depth);
            }
            return Err(invalid_table("nested cell paragraph has an empty CP range"));
        }
        let mark_cp = paragraph.source.cp_end - 1;
        let story_offset = (mark_cp - story.cp_start) as usize;
        if story_offset >= story.content.utf16.len() || story.content.utf16[story_offset] != 0x000D {
            proof {
                lemma_nested_marks_fail(*story, runs@, k as int, runs@.len() as int, cp_start, cp_end, depth);
            }
            return Err(invalid_table("nested cell/TTP is not a paragraph mark"));
        }
        marks.push((mark_cp - cp_start) as usize);
        proof {
            let c = nested_marks(*story, runs@, k as int, cp_start, cp_end, depth).unwrap();
            assert forall|i: int| 0 <= i < c.len() implies #[trigger] c[i] == marks@[i] as int by {
                if i < before.len() {
                    assert(marks@[i] == before[i]);
                }
            }
        }
    }
    let ghost before = marks@;
    let ghost o = nested_marks(*story, runs@, runs@.len() as int, cp_start, cp_end, depth).unwrap();
    sort_marks(&mut marks);
    proof {
        broadcast use vstd::seq_lib::group_to_multiset_ensures;

        assert(marks@.len() == before.len()) by {
            assert(marks@.to_multiset().len() == before.to_multiset().len());
        }
        if marks@.len() > 0 {
            let n = marks@.len() - 1;
            let last = units@.len() - 1;
            if marks@[n] == last {
                assert(marks@.to_multiset().count(marks@[n]) > 0);
                assert(before.contains(marks@[n]));
                let j = choose|j: int| 0 <= j < before.len() && before[j] == marks@[n];
                assert(o[j] == last);
            }
            if o.contains(last) {
                let j = choose|j: int| 0 <= j < o.len() && o[j] == last;
                assert(before[j] as int == last);
                assert(before.to_multiset().count(before[j]) > 0);
                assert(marks@.contains(before[j]));
                let i = choose|i: int| 0 <= i < marks@.len() && marks@[i] == before[j];
                if i < n {
                    assert(marks@[i] <= marks@[n]);
                }
            }
        }

        assert forall|i: int| 0 <= i < marks@.len() implies (#[trigger] marks@[i]) < cp_end - cp_start && cp_start
            + marks@[i] - story.cp_start < u.len() && story_unit(*story, cp_start + marks@[i]) == 0x000Du16 by {
            assert(marks@.to_multiset().count(marks@[i]) > 0);
            assert(before.contains(marks@[i]));
            let j = choose|j: int| 0 <= j < before.len() && before[j] == marks@[i];
        }
    }
    Ok(marks)
}

/// The column count that the last `sprmTDefTable` among the SPRMs of `p` defines, if any.
pub open spec fn row_columns(p: SemanticParagraphRun) -> Option<int> {
    match last_table_operand(p.sprms@, p.sprms@.len() as int, 0xD608) {
        Some(o) => Some(o[2] as int),
        None => None,
    }
}

/// Why the row `[a, b)` of `story` at `depth`, ended by paragraph run `p`,
/// cannot be built, if so: invalid table SPRMs or no `sprmTDefTable`, an empty
/// row or one past the story, unreadable cell marks, a mark count other than
/// the columns plus one, a last mark that is not the row's final CP, or more
/// columns than the cell budget.
pub open spec fn row_failure(
    story: Story,
    runs: Seq<SemanticParagraphRun>,
    p: SemanticParagraphRun,
    a: u32,
    b: u32,
    depth: u32,
    limits: DocLimits,
) -> Option<ErrorKind> {
    if table_failure(p.sprms@, p.sprms@.len() as int) || row_columns(p) is None || a >= b || b - story.cp_start
        > story.content.utf16@.len() {
        Some(ErrorKind::InvalidTable)
    } else {
        let units = story.content.utf16@.subrange(a - story.cp_start, b - story.cp_start);
        let columns = row_columns(p).unwrap();
        match row_mark_offsets(story, runs, units, a, b, depth) {
            None => Some(ErrorKind::InvalidTable),
            Some(m) => if m.len() != columns + 1 || !m.contains(units.len() - 1) {
                Some(ErrorKind::InvalidTable)
            } else if columns > limits.max_table_cells {
                Some(ErrorKind::ResourceLimit)
            } else {
                None
            },
        }
    }
}

/// Builds the row `[cp_start, cp_end)` of `story` at `depth` whose TTP is
/// `paragraph`: its table properties and one cell per defined column,
/// delimited by the row's marks.
#[verifier::rlimit(60)]
fn parse_row(
    story: &Story,
    formatting: &SemanticFormattingIndex,
    paragraph: &SemanticParagraphRun,
    cp_start: u32,
    cp_end: u32,
    depth: u32,
    limits: DocLimits,
) -> (res: Result<TableRow>)
    requires
        story.cp_start <= cp_start,
        cp_end <= story.cp_end,
        depth >= 1,
    ensures
        res is Ok <==> row_failure(*story, formatting.paragraph_runs@, *paragraph, cp_start, cp_end, depth, limits) is None,
        res is Err ==> res->Err_0.kind() == row_failure(
            *story,
            formatting.paragraph_runs@,
            *paragraph,
            cp_start,
            cp_end,
            depth,
            limits,
        ).unwrap(),
        res matches Ok(r) ==> r.cells@.len() == row_columns(*paragraph).unwrap(),
        res matches Ok(r) ==> {
            &&& r.cp_start == cp_start
            &&& r.cp_end == cp_end
            &&& r.depth == depth
            &&& cells_chained(r, *story)
            &&& r.cells@.len() <= limits.max_table_cells
            &&& table_fields_match(r.properties, paragraph.sprms@, paragraph.sprms@.len() as int)
        },
{
    let properties = apply_table_sprms(paragraph.sprms.as_slice())?;
    let column_count = match &properties.definition {
        Some(d) => d.column_count,
        None => {
            return Err(invalid_table("table row has no sprmTDefTable"));
        },
    };
    if cp_start >= cp_end {
        return Err(invalid_table("table row is empty"));
    }
    let start = (cp_start - story.cp_start) as usize;
    let end = (cp_end - story.cp_start) as usize;
    let utf16 = &story.content.utf16;
    if end > utf16.len() {
        return Err(invalid_table("table row exceeds the main story"));
    }
    let units = &utf16.as_slice()[start..end];
    let marks = row_marks(story, formatting, units, cp_start, cp_end, depth)?;
    let expected_marks = column_count as usize + 1;
    if marks.len() != expected_marks {
        return Err(invalid_table("table row mark count does not match its definition"));
    }
    if marks[marks.len() - 1] != units.len() - 1 {
        return Err(invalid_table("table row TTP is not its final CP"));
    }
    if column_count as usize > limits.max_table_cells {
        return Err(resource_limit("table-cell", column_count as usize, limits.max_table_cells));
    }
    let definition = match &properties.definition {
        Some(d) => d,
        None => {
            return Err(invalid_table("table row has no sprmTDefTable"));
        },
    };
    let mut cells: Vec<TableCell> = Vec::new();
    let mut cell_start = cp_start;
    let mut index: usize = 0;
    while index < column_count as usize
        invariant
            marks@.len() == column_count + 1,
            forall|a: int, b: int| 0 <= a < b < marks@.len() ==> marks@[a] <= marks@[b],
            forall|i: int|
                0 <= i < marks@.len() ==> (#[trigger] marks@[i]) < cp_end - cp_start && cp_start + marks@[i]
                    - story.cp_start < story.content.utf16@.len() && story_unit(*story, cp_start + marks@[i])
                    == if depth == 1 {
                    7u16
                } else {
                    0x000Du16
                },
            marks@[column_count as int] == cp_end - cp_start - 1,
            cp_start < cp_end,
            definition.column_count == column_count,
            definition.cells@.len() == column_count,
            index <= column_count,
            cells@.len() == index,
            index == 0 ==> cell_start == cp_start,
            index > 0 ==> cell_start == cells@[index - 1].cp_end,
            forall|i: int|
                0 <= i < index ==> {
                    &&& (#[trigger] cells@[i]).index == i
                    &&& cells@[i].cp_content_end == cp_start + marks@[i]
                    &&& cells@[i].cp_end == cells@[i].cp_content_end + 1
                    &&& cells@[i].format == definition.cells@[i]
                },
            index > 0 ==> cells@[0].cp_start == cp_start,
            forall|i: int| 0 <= i < index - 1 ==> (#[trigger] cells@[i + 1]).cp_start == cells@[i].cp_end,
        decreases column_count - index,
    {
        assert(marks@[index as int] <= marks@[column_count as int]);
        let mark_cp = cp_start + marks[index] as u32;
        let format = definition.cells[index];
        cells.push(TableCell { index: index as u8, cp_start: cell_start, cp_content_end: mark_cp, cp_end: mark_cp + 1, format });
        cell_start = mark_cp + 1;
        index = index + 1;
    }
    Ok(TableRow { cp_start, cp_end, depth, properties, cells })
}

/// Whether no two pending row starts share a depth.
pub open spec fn depths_distinct(pending: Seq<(u32, u32)>) -> bool {
    forall|i: int, j: int| 0 <= i < j < pending.len() ==> (#[trigger] pending[i]).0 != (#[trigger] pending[j]).0
}

/// The index of the pending row start at `depth`, if there is one.
pub open spec fn pending_at(pending: Seq<(u32, u32)>, depth: u32) -> Option<int> {
    if exists|i: int| 0 <= i < pending.len() && (#[trigger] pending[i]).0 == depth {
        Some(choose|i: int| 0 <= i < pending.len() && (#[trigger] pending[i]).0 == depth)
    } else {
        None
    }
}

/// Whether paragraph run `p` carries the row-end (TTP) mark of `depth`.
pub open spec fn ttp_mark(p: SemanticParagraphRun, depth: u32) -> bool {
    if depth == 1 {
        p.properties.table_terminating_paragraph == Some(true)
    } else {
        p.properties.inner_table_terminating_paragraph == Some(true)
    }
}

/// The table scan after paragraph run `p`, from the pending row starts, the
/// number of rows and the number of cells so far, or why it stops: a table
/// paragraph missing before a plain one, a shallower paragraph before a nested
/// row's end, the row budget, a row that cannot be built, or the cell budget.
pub open spec fn scan_step(
    story: Story,
    runs: Seq<SemanticParagraphRun>,
    p: SemanticParagraphRun,
    st: (Seq<(u32, u32)>, int, int),
    limits: DocLimits,
) -> Outcome<(Seq<(u32, u32)>, int, int)> {
    let pending = st.0;
    let start = clipped_start(p, story);
    let end = clipped_end(p, story);
    let depth = depth_of(p.properties);
    if start >= end {
        Ok(st)
    } else if depth == 0 {
        if pending.len() > 0 {
            Err(ErrorKind::InvalidTable)
        } else {
            Ok(st)
        }
    } else if exists|i: int| 0 <= i < pending.len() && (#[trigger] pending[i]).0 > depth {
        Err(ErrorKind::InvalidTable)
    } else {
        let opened = if pending_at(pending, depth) is Some {
            pending
        } else {
            pending.push((depth, start))
        };
        if !ttp_mark(p, depth) {
            Ok((opened, st.1, st.2))
        } else if st.1 >= limits.max_table_rows {
            Err(ErrorKind::ResourceLimit)
        } else {
            let i = pending_at(opened, depth).unwrap();
            match row_failure(story, runs, p, opened[i].1, end, depth, limits) {
                Some(e) => Err(e),
                None => {
                    let cells = st.2 + row_columns(p).unwrap();
                    if cells > usize::MAX {
                        Err(ErrorKind::InvalidTable)
                    } else if cells > limits.max_table_cells {
                        Err(ErrorKind::ResourceLimit)
                    } else {
                        Ok((opened.remove(i), st.1 + 1, cells))
                    }
                },
            }
        }
    }
}

/// The table scan over the first `n` paragraph runs of `runs`.
pub open spec fn table_scan(story: Story, runs: Seq<SemanticParagraphRun>, n: int, limits: DocLimits) -> Outcome<
    (Seq<(u32, u32)>, int, int),
>
    decreases n,
{
    if n <= 0 {
        Ok((seq![], 0, 0))
    } else {
        match table_scan(story, runs, n - 1, limits) {
            Err(e) => Err(e),
            Ok(st) => scan_step(story, runs, runs[n - 1], st, limits),
        }
    }
}

/// Once the scan stops, it stays stopped.
proof fn lemma_scan_stops(story: Story, runs: Seq<SemanticParagraphRun>, k: int, n: int, limits: DocLimits)
    requires
        0 <= k <= n,
        table_scan(story, runs, k, limits) is Err,
    ensures
        table_scan(story, runs, n, limits) == table_scan(story, runs, k, limits),
    decreases n - k,
{
    if k < n {
        lemma_scan_stops(story, runs, k, n - 1, limits);
    }
}

/// Why table reconstruction of `story` from paragraph runs `runs` fails before
/// its rows are grouped into tables, if it does: a story other than the main
/// one, a failed scan, or a row start left without its row end.
pub open spec fn tables_failure(story: Story, runs: Seq<SemanticParagraphRun>, limits: DocLimits) -> Option<ErrorKind> {
    if story.kind != StoryKind::Main {
        Some(ErrorKind::InvalidTable)
    } else {
        match table_scan(story, runs, runs.len() as int, limits) {
            Err(e) => Some(e),
            Ok(st) => if st.0.len() > 0 {
                Some(ErrorKind::InvalidTable)
            } else {
                None
            },
        }
    }
}

/// The number of rows the scan of `runs` builds.
pub open spec fn scanned_rows(story: Story, runs: Seq<SemanticParagraphRun>, limits: DocLimits) -> int {
    match table_scan(story, runs, runs.len() as int, limits) {
        Ok(st) => st.1,
        Err(_) => 0,
    }
}

/// What `TableCollection::parse` gives for `story` and `formatting`: each
/// failure of the scan with its own kind, success otherwise unless the rows
/// group into more tables than the table budget, and tables whose rows are
/// exactly those the row-end paragraphs close.
pub open spec fn table_outcome(story: Story, formatting: SemanticFormattingIndex, limits: DocLimits, res: Result<TableCollection>) -> bool {
    let runs = formatting.paragraph_runs@;
    &&& tables_result(story, limits, res)
    &&& tables_failure(story, runs, limits) matches Some(e) ==> res is Err && res->Err_0.kind() == e
    &&& tables_failure(story, runs, limits) is None ==> res is Ok || (res is Err && res->Err_0.kind()
        == ErrorKind::ResourceLimit && scanned_rows(story, runs, limits) > limits.max_tables)
    &&& res matches Ok(c) ==> rows_cover_marks(runs, story, runs.len() as int, c.spec_tables())
        && marks_cover_rows(runs, story, c.spec_tables())
}

/// Orders tables by start CP and then depth, keeping every table.
#[verifier::rlimit(40)]
#[verifier::spinoff_prover]
fn order_tables(
    tables: Vec<Table>,
    story: Ghost<Story>,
    runs: Ghost<Seq<SemanticParagraphRun>>,
    max_tables: Ghost<usize>,
) -> (ordered: Vec<Table>)
    requires
        forall|i: int| 0 <= i < tables@.len() ==> table_wf(#[trigger] tables@[i], story@),
        tables@.len() <= max_tables@,
        rows_cover_marks(runs@, story@, runs@.len() as int, tables@),
        marks_cover_rows(runs@, story@, tables@),
    ensures
        forall|i: int| 0 <= i < ordered@.len() ==> table_wf(#[trigger] ordered@[i], story@),
        forall|i: int, j: int| 0 <= i < j < ordered@.len() ==> table_before(#[trigger] ordered@[i], #[trigger] ordered@[j]),
        ordered@.len() <= max_tables@,
        rows_cover_marks(runs@, story@, runs@.len() as int, ordered@),
        marks_cover_rows(runs@, story@, ordered@),
{
    let mut tables = tables;
    let mut ordered: Vec<Table> = Vec::new();
    while tables.len() > 0
        invariant
            forall|i: int| 0 <= i < tables@.len() ==> table_wf(#[trigger] tables@[i], story@),
            forall|i: int| 0 <= i < ordered@.len() ==> table_wf(#[trigger] ordered@[i], story@),
            forall|i: int, j: int|
                0 <= i < j < ordered@.len() ==> table_before(#[trigger] ordered@[i], #[trigger] ordered@[j]),
            tables@.len() + ordered@.len() <= max_tables@,
            forall|q: int|
                0 <= q < runs@.len() && #[trigger] ends_row(runs@[q], story@) ==> tables_have(
                    tables@,
                    depth_of(runs@[q].properties),
                    clipped_end(runs@[q], story@),
                ) || tables_have(ordered@, depth_of(runs@[q].properties), clipped_end(runs@[q], story@)),
            marks_cover_rows(runs@, story@, tables@),
            marks_cover_rows(runs@, story@, ordered@),
        decreases tables@.len(),
    {
        let ghost t0 = tables@;
        let ghost o0 = ordered@;
        let table = tables.remove(0);
        insert_table(&mut ordered, table, Ghost(story@));
        proof {
            let p = choose|p: int| 0 <= p <= o0.len() && ordered@ == o0.insert(p, table);
            assert forall|q: int| 0 <= q < runs@.len() && #[trigger] ends_row(runs@[q], story@) implies tables_have(
                tables@,
                depth_of(runs@[q].properties),
                clipped_end(runs@[q], story@),
            ) || tables_have(ordered@, depth_of(runs@[q].properties), clipped_end(runs@[q], story@)) by {
                let d = depth_of(runs@[q].properties);
                let e = clipped_end(runs@[q], story@);
                if tables_have(t0, d, e) {
                    lemma_tables_remove_first(t0, d, e);
                }
                lemma_tables_insert(o0, p, table, d, e);
            }
            assert forall|i: int, j: int| 0 <= i < tables@.len() && 0 <= j < tables@[i].rows@.len() implies row_from_mark(
                runs@,
                story@,
                #[trigger] tables@[i].rows@[j],
            ) by {
                assert(tables@[i] == t0[i + 1]);
            }
            assert forall|i: int, j: int| 0 <= i < ordered@.len() && 0 <= j < ordered@[i].rows@.len() implies row_from_mark(
                runs@,
                story@,
                #[trigger] ordered@[i].rows@[j],
            ) by {
                if i < p {
                    assert(ordered@[i] == o0[i]);
                } else if i > p {
                    assert(ordered@[i] == o0[i - 1]);
                } else {
                    assert(ordered@[i] == t0[0]);
                }
            }
        }
    }
    ordered
}

/// Reconstructed tables in main-story source order.
#[derive(Debug, Clone, PartialEq, Eq)]
pub struct TableCollection {
    tables: Vec<Table>,
}

impl Default for TableCollection {
    fn default() -> (res: Self)
        ensures
            res.spec_tables().len() == 0,
    {
        TableCollection { tables: Vec::new() }
    }
}

/// The index of the pending row start at `depth`, if any.
fn find_depth(pending: &[(u32, u32)], depth: u32) -> (res: Option<usize>)
    ensures
        res matches Some(i) ==> i < pending@.len() && pending@[i as int].0 == depth,
        res is None ==> forall|i: int| 0 <= i < pending@.len() ==> (#[trigger] pending@[i]).0 != depth,
{
    let mut i: usize = 0;
    while i < pending.len()
        invariant
            i <= pending@.len(),
            forall|j: int| 0 <= j < i ==> (#[trigger] pending@[j]).0 != depth,
        decreases pending@.len() - i,
    {
        if pending[i].0 == depth {
            return Some(i);
        }
        i = i + 1;
    }
    None
}

/// Whether a row start is pending at a depth deeper than `depth`.
fn has_deeper(pending: &[(u32, u32)], depth: u32) -> (res: bool)
    ensures
        res == exists|i: int| 0 <= i < pending@.len() && (#[trigger] pending@[i]).0 > depth,
{
    let mut i: usize = 0;
    while i < pending.len()
        invariant
            i <= pending@.len(),
            forall|j: int| 0 <= j < i ==> (#[trigger] pending@[j]).0 <= depth,
        decreases pending@.len() - i,
    {
        if pending[i].0 > depth {
            return true;
        }
        i = i + 1;
    }
    false
}

/// Whether row `a` sorts no later than `b`: by depth, then start CP.
pub open spec fn row_before(a: TableRow, b: TableRow) -> bool {
    a.depth < b.depth || (a.depth == b.depth && a.cp_start <= b.cp_start)
}

/// Inserts `row` after every row that sorts no later than it.
fn insert_row(rows: &mut Vec<TableRow>, row: TableRow, story: Ghost<Story>)
    requires
        forall|i: int| 0 <= i < old(rows)@.len() ==> cells_chained(#[trigger] old(rows)@[i], story@),
        cells_chained(row, story@),
        forall|i: int, j: int| 0 <= i < j < old(rows)@.len() ==> row_before(#[trigger] old(rows)@[i], #[trigger] old(rows)@[j]),
    ensures
        final(rows)@.len() == old(rows)@.len() + 1,
        exists|p: int| 0 <= p <= old(rows)@.len() && final(rows)@ == old(rows)@.insert(p, row),
        forall|i: int| 0 <= i < final(rows)@.len() ==> cells_chained(#[trigger] final(rows)@[i], story@),
        forall|i: int, j: int|
            0 <= i < j < final(rows)@.len() ==> row_before(#[trigger] final(rows)@[i], #[trigger] final(rows)@[j]),
{
    let mut pos: usize = 0;
    while pos < rows.len() && (rows[pos].depth < row.depth || (rows[pos].depth == row.depth && rows[pos].cp_start
        <= row.cp_start))
        invariant
            pos <= rows@.len(),
            forall|i: int| 0 <= i < pos ==> row_before(#[trigger] rows@[i], row),
        decreases rows@.len() - pos,
    {
        pos = pos + 1;
    }
    let ghost before = rows@;
    rows.insert(pos, row);
    proof {
        assert(rows@ == before.insert(pos as int, row));
        assert forall|i: int| 0 <= i < rows@.len() implies cells_chained(#[trigger] rows@[i], story@) by {
            if i < pos {
                assert(rows@[i] == before[i]);
            } else if i > pos {
                assert(rows@[i] == before[i - 1]);
            }
        }
        assert forall|i: int, j: int| 0 <= i < j < rows@.len() implies row_before(#[trigger] rows@[i], #[trigger] rows@[j]) by {
            if j == pos {
                assert(rows@[i] == before[i]);
            } else if i == pos {
                assert(rows@[j] == before[j - 1]);
                if pos < before.len() {
                    assert(!row_before(before[pos as int], row));
                    assert(row_before(before[pos as int], before[j - 1]));
                }
            } else if i < pos && j > pos {
                assert(rows@[i] == before[i]);
                assert(rows@[j] == before[j - 1]);
            } else if j < pos {
                assert(rows@[i] == before[i]);
                assert(rows@[j] == before[j]);
            } else {
                assert(rows@[i] == before[i - 1]);
                assert(rows@[j] == before[j - 1]);
            }
        }
    }
}

/// Inserts `table` after every table that comes no later than it.
fn insert_table(tables: &mut Vec<Table>, table: Table, story: Ghost<Story>)
    requires
        forall|i: int| 0 <= i < old(tables)@.len() ==> table_wf(#[trigger] old(tables)@[i], story@),
        table_wf(table, story@),
        forall|i: int, j: int|
            0 <= i < j < old(tables)@.len() ==> table_before(#[trigger] old(tables)@[i], #[trigger] old(tables)@[j]),
    ensures
        final(tables)@.len() == old(tables)@.len() + 1,
        exists|p: int| 0 <= p <= old(tables)@.len() && final(tables)@ == old(tables)@.insert(p, table),
        forall|i: int| 0 <= i < final(tables)@.len() ==> table_wf(#[trigger] final(tables)@[i], story@),
        forall|i: int, j: int|
            0 <= i < j < final(tables)@.len() ==> table_before(#[trigger] final(tables)@[i], #[trigger] final(tables)@[j]),
{
    let mut pos: usize = 0;
    while pos < tables.len() && (tables[pos].cp_start < table.cp_start || (tables[pos].cp_start == table.cp_start
        && tables[pos].depth <= table.depth))
        invariant
            pos <= tables@.len(),
            forall|i: int| 0 <= i < pos ==> table_before(#[trigger] tables@[i], table),
        decreases tables@.len() - pos,
    {
        pos = pos + 1;
    }
    let ghost before = tables@;
    tables.insert(pos, table);
    proof {
        assert(tables@ == before.insert(pos as int, table));
        assert forall|i: int| 0 <= i < tables@.len() implies table_wf(#[trigger] tables@[i], story@) by {
            if i < pos {
                assert(tables@[i] == before[i]);
            } else if i > pos {
                assert(tables@[i] == before[i - 1]);
            }
        }
        assert forall|i: int, j: int| 0 <= i < j < tables@.len() implies table_before(#[trigger] tables@[i], #[trigger] tables@[j]) by {
            if j == pos {
                assert(tables@[i] == before[i]);
            } else if i == pos {
                assert(tables@[j] == before[j - 1]);
                if pos < before.len() {
                    assert(!table_before(before[pos as int], table));
                    assert(table_before(before[pos as int], before[j - 1]));
                }
            } else if i < pos && j > pos {
                assert(tables@[i] == before[i]);
                assert(tables@[j] == before[j - 1]);
            } else if j < pos {
                assert(tables@[i] == before[i]);
                assert(tables@[j] == before[j]);
            } else {
                assert(tables@[i] == before[i - 1]);
                assert(tables@[j] == before[j - 1]);
            }
        }
    }
}

impl TableCollection {
    /// The tables, ordered by start CP and then depth.
    pub closed spec fn spec_tables(&self) -> Seq<Table> {
        self.tables@
    }

    /// Reconstructs nested tables from direct paragraph depth/TTP properties,
    /// explicit cell marks, and each row's `sprmTDefTable`.
    #[verifier::rlimit(100)]
    #[verifier::spinoff_prover]
    pub fn parse(story: &Story, formatting: &SemanticFormattingIndex, limits: DocLimits) -> (res: Result<Self>)
        ensures
            tables_result(*story, limits, res),
            res matches Ok(c) ==> rows_cover_marks(
                formatting.paragraph_runs@,
                *story,
                formatting.paragraph_runs@.len() as int,
                c.spec_tables(),
            ),
            res matches Ok(c) ==> marks_cover_rows(formatting.paragraph_runs@, *story, c.spec_tables()),
            tables_failure(*story, formatting.paragraph_runs@, limits) matches Some(e) ==> res is Err
                && res->Err_0.kind() == e,
            tables_failure(*story, formatting.paragraph_runs@, limits) is None ==> res is Ok || (res is Err
                && res->Err_0.kind() == ErrorKind::ResourceLimit && scanned_rows(
                *story,
                formatting.paragraph_runs@,
                limits,
            ) > limits.max_tables),
    {
        if story.kind != StoryKind::Main {
            return Err(invalid_table("table reconstruction currently requires the main story"));
        }
        let runs = &formatting.paragraph_runs;
        let mut pending: Vec<(u32, u32)> = Vec::new();
        let mut rows: Vec<TableRow> = Vec::new();
        let mut cell_count: usize = 0;
        let mut k: usize = 0;
        while k < runs.len()
            invariant
                story.kind == StoryKind::Main,
                k <= runs@.len(),
                rows@.len() <= limits.max_table_rows,
                forall|i: int| 0 <= i < rows@.len() ==> cells_chained(#[trigger] rows@[i], *story),
                forall|i: int| 0 <= i < pending@.len() ==> story.cp_start <= (#[trigger] pending@[i]).1,
                forall|q: int|
                    0 <= q < k && #[trigger] ends_row(runs@[q], *story) ==> rows_have(
                        rows@,
                        depth_of(runs@[q].properties),
                        clipped_end(runs@[q], *story),
                    ),
                forall|j: int| 0 <= j < rows@.len() ==> row_from_mark(runs@, *story, #[trigger] rows@[j]),
                runs@ == formatting.paragraph_runs@,
                table_scan(*story, runs@, k as int, limits) == Ok::<(Seq<(u32, u32)>, int, int), ErrorKind>(
                    (pending@, rows@.len() as int, cell_count as int),
                ),
                depths_distinct(pending@),
            decreases runs@.len() - k,
        {
            let paragraph = &runs[k];
            let ghost st = (pending@, rows@.len() as int, cell_count as int);
            let ghost p0 = pending@;
            k = k + 1;
            proof {
                assert(runs@[k - 1] == *paragraph);
            }
            let start = if paragraph.source.cp_start > story.cp_start {
                paragraph.source.cp_start
            } else {
                story.cp_start
            };
            let end = if paragraph.source.cp_end < story.cp_end {
                paragraph.source.cp_end
            } else {
                story.cp_end
            };
            if start >= end {
                continue;
            }
            let depth = paragraph_depth(&paragraph.properties);
            if depth == 0 {
                if pending.len() > 0 {
                    proof {
                        lemma_scan_stops(*story, runs@, k as int, runs@.len() as int, limits);
                    }
                    return Err(invalid_table("table row reaches a non-table paragraph"));
                }
                continue;
            }
            if has_deeper(pending.as_slice(), depth) {
                proof {
                    lemma_scan_stops(*story, runs@, k as int, runs@.len() as int, limits);
                }
                return Err(invalid_table("nested row reaches a shallower depth before its TTP"));
            }
            if find_depth(pending.as_slice(), depth).is_none() {
                pending.push((depth, start));
                proof {
                    assert(pending_at(p0, depth) is None);
                    assert forall|i: int, j: int| 0 <= i < j < pending@.len() implies (#[trigger] pending@[i]).0
                        != (#[trigger] pending@[j]).0 by {
                        if j < p0.len() {
                            assert(pending@[i] == p0[i] && pending@[j] == p0[j]);
                        } else {
                            assert(pending@[i] == p0[i]);
                        }
                    }
                }
            } else {
                proof {
                    assert(pending_at(p0, depth) is Some);
                }
            }
            let ghost opened = pending@;
            let is_ttp = if depth == 1 {
                paragraph.properties.table_terminating_paragraph == Some(true)
            } else {
                paragraph.properties.inner_table_terminating_paragraph == Some(true)
            };
            if is_ttp {
                if rows.len() >= limits.max_table_rows {
                    proof {
                        lemma_scan_stops(*story, runs@, k as int, runs@.len() as int, limits);
                    }
                    let actual = if rows.len() < usize::MAX {
                        rows.len() + 1
                    } else {
                        usize::MAX
                    };
                    return Err(resource_limit("table-row", actual, limits.max_table_rows));
                }
                proof {
                    assert(exists|i: int| 0 <= i < opened.len() && (#[trigger] opened[i]).0 == depth) by {
                        if pending_at(p0, depth) is Some {
                            let c = choose|i: int| 0 <= i < p0.len() && (#[trigger] p0[i]).0 == depth;
                            assert(opened[c].0 == depth);
                        } else {
                            assert(opened[p0.len() as int].0 == depth);
                        }
                    }
                }
                let index = match find_depth(pending.as_slice(), depth) {
                    Some(i) => i,
                    None => {
                        return Err(invalid_table("TTP has no row start"));
                    },
                };
                proof {
                    let c = choose|i: int| 0 <= i < opened.len() && (#[trigger] opened[i]).0 == depth;
                    if c != index {
                        if c < index {
                            assert(opened[c].0 != opened[index as int].0);
                        } else {
                            assert(opened[index as int].0 != opened[c].0);
                        }
                    }
                    assert(pending_at(opened, depth) == Some(index as int));
                }
                let row_start = pending[index].1;
                let ghost before = pending@;
                pending.remove(index);
                proof {
                    assert forall|i: int| 0 <= i < pending@.len() implies story.cp_start <= (#[trigger] pending@[i]).1 by {
                        if i < index {
                            assert(pending@[i] == before[i]);
                        } else {
                            assert(pending@[i] == before[i + 1]);
                        }
                    }
                }
                proof {
                    assert forall|i: int, j: int| 0 <= i < j < pending@.len() implies (#[trigger] pending@[i]).0
                        != (#[trigger] pending@[j]).0 by {
                        let a = if i < index { i } else { i + 1 };
                        let b = if j < index { j } else { j + 1 };
                        assert(pending@[i] == opened[a] && pending@[j] == opened[b]);
                    }
                }
                let row = match parse_row(story, formatting, paragraph, row_start, end, depth, limits) {
                    Ok(row) => row,
                    Err(e) => {
                        proof {
                            lemma_scan_stops(*story, runs@, k as int, runs@.len() as int, limits);
                        }
                        return Err(e);
                    },
                };
                if row.cells.len() > usize::MAX - cell_count {
                    proof {
                        lemma_scan_stops(*story, runs@, k as int, runs@.len() as int, limits);
                    }
                    return Err(invalid_table("total table cell count overflow"));
                }
                cell_count = cell_count + row.cells.len();
                if cell_count > limits.max_table_cells {
                    proof {
                        lemma_scan_stops(*story, runs@, k as int, runs@.len() as int, limits);
                    }
                    return Err(resource_limit("table-cell", cell_count, limits.max_table_cells));
                }
                let ghost old_rows = rows@;
                rows.push(row);
                proof {
                    assert(rows@ == old_rows.push(row));
                    assert forall|q: int| 0 <= q < k && #[trigger] ends_row(runs@[q], *story) implies rows_have(
                        rows@,
                        depth_of(runs@[q].properties),
                        clipped_end(runs@[q], *story),
                    ) by {
                        lemma_rows_insert(old_rows, 0, row, depth_of(runs@[q].properties), clipped_end(runs@[q], *story));
                    }
                    assert(ends_row(runs@[k - 1], *story));
                    assert(row_from_mark(runs@, *story, row));
                    assert forall|j: int| 0 <= j < rows@.len() implies row_from_mark(runs@, *story, #[trigger] rows@[j]) by {
                        if j < old_rows.len() {
                            assert(rows@[j] == old_rows[j]);
                        }
                    }
                }
            }
        }
        if pending.len() > 0 {
            return Err(invalid_table("table row has no TTP"));
        }
        let ghost total = rows@.len();
        let mut sorted: Vec<TableRow> = Vec::new();
        while rows.len() > 0
            invariant
                forall|i: int| 0 <= i < rows@.len() ==> cells_chained(#[trigger] rows@[i], *story),
                forall|i: int| 0 <= i < sorted@.len() ==> cells_chained(#[trigger] sorted@[i], *story),
                forall|i: int, j: int|
                    0 <= i < j < sorted@.len() ==> row_before(#[trigger] sorted@[i], #[trigger] sorted@[j]),
                forall|q: int|
                    0 <= q < runs@.len() && #[trigger] ends_row(runs@[q], *story) ==> rows_have(
                        rows@,
                        depth_of(runs@[q].properties),
                        clipped_end(runs@[q], *story),
                    ) || rows_have(sorted@, depth_of(runs@[q].properties), clipped_end(runs@[q], *story)),
                forall|j: int| 0 <= j < rows@.len() ==> row_from_mark(runs@, *story, #[trigger] rows@[j]),
                forall|j: int| 0 <= j < sorted@.len() ==> row_from_mark(runs@, *story, #[trigger] sorted@[j]),
                rows@.len() + sorted@.len() == total,
            decreases rows@.len(),
        {
            let ghost r0 = rows@;
            let ghost s0 = sorted@;
            let row = rows.remove(0);
            insert_row(&mut sorted, row, Ghost(*story));
            proof {
                let p = choose|p: int| 0 <= p <= s0.len() && sorted@ == s0.insert(p, row);
                assert forall|q: int| 0 <= q < runs@.len() && #[trigger] ends_row(runs@[q], *story) implies rows_have(
                    rows@,
                    depth_of(runs@[q].properties),
                    clipped_end(runs@[q], *story),
                ) || rows_have(sorted@, depth_of(runs@[q].properties), clipped_end(runs@[q], *story)) by {
                    let d = depth_of(runs@[q].properties);
                    let e = clipped_end(runs@[q], *story);
                    if rows_have(r0, d, e) {
                        lemma_rows_remove_first(r0, d, e);
                    }
                    lemma_rows_insert(s0, p, row, d, e);
                }
                assert(row_from_mark(runs@, *story, r0[0]));
                assert forall|j: int| 0 <= j < rows@.len() implies row_from_mark(runs@, *story, #[trigger] rows@[j]) by {
                    assert(rows@[j] == r0[j + 1]);
                }
                assert forall|j: int| 0 <= j < sorted@.len() implies row_from_mark(runs@, *story, #[trigger] sorted@[j]) by {
                    if j < p {
                        assert(sorted@[j] == s0[j]);
                    } else if j > p {
                        assert(sorted@[j] == s0[j - 1]);
                    }
                }
            }
        }
        let mut tables: Vec<Table> = Vec::new();
        while sorted.len() > 0
            invariant
                story.kind == StoryKind::Main,
                forall|i: int| 0 <= i < sorted@.len() ==> cells_chained(#[trigger] sorted@[i], *story),
                forall|i: int| 0 <= i < tables@.len() ==> table_wf(#[trigger] tables@[i], *story),
                tables@.len() <= limits.max_tables,
                forall|q: int|
                    0 <= q < runs@.len() && #[trigger] ends_row(runs@[q], *story) ==> rows_have(
                        sorted@,
                        depth_of(runs@[q].properties),
                        clipped_end(runs@[q], *story),
                    ) || tables_have(tables@, depth_of(runs@[q].properties), clipped_end(runs@[q], *story)),
                forall|j: int| 0 <= j < sorted@.len() ==> row_from_mark(runs@, *story, #[trigger] sorted@[j]),
                marks_cover_rows(runs@, *story, tables@),
                tables@.len() + sorted@.len() <= total,
                tables_failure(*story, formatting.paragraph_runs@, limits) is None,
                scanned_rows(*story, formatting.paragraph_runs@, limits) == total,
            decreases sorted@.len(),
        {
            let ghost r0 = sorted@;
            let ghost t0 = tables@;
            let row = sorted.remove(0);
            proof {
                assert forall|q: int| 0 <= q < runs@.len() && #[trigger] ends_row(runs@[q], *story) implies (row.depth
                    == depth_of(runs@[q].properties) && row.cp_end == clipped_end(runs@[q], *story)) || rows_have(
                    sorted@,
                    depth_of(runs@[q].properties),
                    clipped_end(runs@[q], *story),
                ) || tables_have(t0, depth_of(runs@[q].properties), clipped_end(runs@[q], *story)) by {
                    let d = depth_of(runs@[q].properties);
                    let e = clipped_end(runs@[q], *story);
                    if rows_have(r0, d, e) {
                        lemma_rows_remove_first(r0, d, e);
                    }
                }
                assert(row_from_mark(runs@, *story, r0[0]));
                assert forall|j: int| 0 <= j < sorted@.len() implies row_from_mark(runs@, *story, #[trigger] sorted@[j]) by {
                    assert(sorted@[j] == r0[j + 1]);
                }
            }
            let n = tables.len();
            if n > 0 && tables[n - 1].depth == row.depth && tables[n - 1].cp_end == row.cp_start {
                let mut table = tables.pop().unwrap();
                let ghost old_rows = table.rows@;
                table.cp_end = row.cp_end;
                table.rows.push(row);
                proof {
                    assert forall|i: int| 0 <= i < table.rows@.len() implies (#[trigger] table.rows@[i]).depth
                        == table.depth && cells_chained(table.rows@[i], *story) by {
                        if i < old_rows.len() {
                            assert(table.rows@[i] == old_rows[i]);
                        }
                    }
                    assert forall|i: int| 0 <= i < table.rows@.len() - 1 implies (#[trigger] table.rows@[i
                        + 1]).cp_start == table.rows@[i].cp_end by {
                        if i < old_rows.len() - 1 {
                            assert(table.rows@[i] == old_rows[i]);
                            assert(table.rows@[i + 1] == old_rows[i + 1]);
                        } else {
                            assert(table.rows@[i] == old_rows.last());
                        }
                    }
                    assert(table.rows@[0] == old_rows[0]);
                }
                tables.push(table);
                proof {
                    assert forall|i: int| 0 <= i < tables@.len() implies table_wf(#[trigger] tables@[i], *story) by {
                        if i < n - 1 {
                            assert(tables@[i] == tables@.drop_last()[i]);
                        }
                    }
                    assert(tables@ == t0.drop_last().push(table));
                    assert(table.rows@ == old_rows.push(row));
                    assert(old_rows == t0.last().rows@);
                    assert forall|q: int| 0 <= q < runs@.len() && #[trigger] ends_row(runs@[q], *story) implies rows_have(
                        sorted@,
                        depth_of(runs@[q].properties),
                        clipped_end(runs@[q], *story),
                    ) || tables_have(tables@, depth_of(runs@[q].properties), clipped_end(runs@[q], *story)) by {
                        let d = depth_of(runs@[q].properties);
                        let e = clipped_end(runs@[q], *story);
                        lemma_rows_insert(old_rows, 0, row, d, e);
                        if tables_have(t0, d, e) {
                            lemma_tables_grow_last(t0, table, d, e);
                        }
                        lemma_tables_insert(t0.drop_last(), 0, table, d, e);
                    }
                    assert forall|i: int, j: int| 0 <= i < tables@.len() && 0 <= j < tables@[i].rows@.len() implies row_from_mark(
                        runs@,
                        *story,
                        #[trigger] tables@[i].rows@[j],
                    ) by {
                        if i < n - 1 {
                            assert(tables@[i] == t0[i]);
                        } else if j < old_rows.len() {
                            assert(tables@[i].rows@[j] == t0[n - 1].rows@[j]);
                        }
                    }
                }
                continue;
            }
            if tables.len() >= limits.max_tables {
                let actual = if tables.len() < usize::MAX {
                    tables.len() + 1
                } else {
                    usize::MAX
                };
                return Err(resource_limit("table", actual, limits.max_tables));
            }
            let table = Table { cp_start: row.cp_start, cp_end: row.cp_end, depth: row.depth, rows: vec![row] };
            tables.push(table);
            proof {
                assert(tables@ == t0.push(table));
                assert(table.rows@ == Seq::<TableRow>::empty().push(row));
                assert forall|q: int| 0 <= q < runs@.len() && #[trigger] ends_row(runs@[q], *story) implies rows_have(
                    sorted@,
                    depth_of(runs@[q].properties),
                    clipped_end(runs@[q], *story),
                ) || tables_have(tables@, depth_of(runs@[q].properties), clipped_end(runs@[q], *story)) by {
                    let d = depth_of(runs@[q].properties);
                    let e = clipped_end(runs@[q], *story);
                    lemma_rows_insert(Seq::<TableRow>::empty(), 0, row, d, e);
                    lemma_tables_insert(t0, 0, table, d, e);
                }
                assert forall|i: int, j: int| 0 <= i < tables@.len() && 0 <= j < tables@[i].rows@.len() implies row_from_mark(
                    runs@,
                    *story,
                    #[trigger] tables@[i].rows@[j],
                ) by {
                    if i < t0.len() {
                        assert(tables@[i] == t0[i]);
                    }
                }
            }
        }
        let ordered = order_tables(tables, Ghost(*story), Ghost(runs@), Ghost(limits.max_tables));
        Ok(TableCollection { tables: ordered })
    }

    /// The tables, ordered by start CP and then depth.
    pub fn tables(&self) -> (res: &[Table])
        ensures
            res@ == self.spec_tables(),
    {
        self.tables.as_slice()
    }

    /// Whether no table was reconstructed.
    pub fn is_empty(&self) -> (res: bool)
        ensures
            res == (self.spec_tables().len() == 0),
    {
        self.tables.len() == 0
    }

    /// Number of tables.
    pub fn len(&self) -> (res: usize)
        ensures
            res == self.spec_tables().len(),
    {
        self.tables.len()
    }
}

} // verus!

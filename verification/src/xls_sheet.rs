//! Worksheet formatting of a BIFF8 substream: geometry, styled cells,
//! source values, merged ranges and hyperlinks.

use vstd::prelude::*;

use std::collections::{BTreeMap, HashMap};

use crate::binary::{le_u16, le_u32, read_u16_le, read_u32_le};
use crate::error::message;
use crate::xls_biff::{
    BLANK, BOF, BOOLERR, COLINFO, CellRange, ColumnBand, DEFAULTROWHEIGHT, DEFCOLWIDTH, DIMENSIONS, EOF, FORMULA,
    HLINK, HyperlinkTarget, LABEL, LABELSST, MERGEDCELLS, MULBLANK, MULRK, NUMBER, RK, ROW, RSTRING, Record,
    RowLayout, STANDARDWIDTH, XlsHyperlink, XlsLimits, colinfo_outcome, dimensions_outcome, hlink_target,
    merge_ranges, parse_colinfo, parse_dimensions, parse_hlink, parse_merges, parse_range, parse_row, range_of,
    range_valid, row_of, valid_prefix,
};

verus! {

broadcast use vstd::std_specs::hash::group_hash_axioms, vstd::std_specs::btree::group_btree_axioms;

/// A sheet's default column width as stored: whole characters
/// (DEFCOLWIDTH) or 1/256 of a character (STANDARDWIDTH).
#[derive(Debug, Clone, Copy, PartialEq, Eq, Structural)]
pub enum DefaultColumnWidth {
    Characters(u16),
    Units(u16),
}

/// A cell value kept from the source: IEEE-754 bits, an RK number as
/// stored, a boolean or an error code.
#[derive(Debug, Clone, Copy, PartialEq, Eq, Structural)]
pub enum SourceCellValue {
    Number(u64),
    RkNumber(u32),
    Boolean(bool),
    Error(u8),
}

/// A source reference that could not be carried over.
#[derive(Debug, Clone, Copy, PartialEq, Eq, Structural)]
pub enum XlsWarning {
    UnsupportedHyperlink { sheet: usize, row: u16, col: u16 },
    InvalidStyleReference { sheet: usize, row: u16, col: u16, xf: u16 },
    InvalidColumnStyleReference { sheet: usize, first_col: u16, last_col: u16, xf: u16 },
    InvalidRowStyleReference { sheet: usize, row: u16, xf: u16 },
}

/// The key of cell (`row`, `col`) in a sheet's cell maps.
pub open spec fn cell_key(row: u16, col: u16) -> u32 {
    (row as int * 65536 + col as int) as u32
}

/// Computes the key of a cell.
pub fn cell_key_of(row: u16, col: u16) -> (res: u32)
    ensures
        res == cell_key(row, col),
{
    row as u32 * 65536 + col as u32
}

/// Formatting of one worksheet. Cells are keyed by [`cell_key`].
#[derive(Debug)]
pub struct SheetFormatting {
    pub name: String,
    pub dimensions: Option<CellRange>,
    pub default_col_width: Option<DefaultColumnWidth>,
    pub default_row_height_twips: Option<u16>,
    pub columns: Vec<ColumnBand>,
    pub rows: BTreeMap<u16, RowLayout>,
    pub cell_xfs: HashMap<u32, u16>,
    pub source_values: HashMap<u32, SourceCellValue>,
    pub merges: Vec<CellRange>,
    pub hyperlinks: Vec<XlsHyperlink>,
}

/// What a sheet holds, with the warnings raised so far.
pub struct SheetModel {
    pub dimensions: Option<CellRange>,
    pub default_col_width: Option<DefaultColumnWidth>,
    pub default_row_height_twips: Option<u16>,
    pub columns: Seq<ColumnBand>,
    pub rows: Map<u16, RowLayout>,
    pub cell_xfs: Map<u32, u16>,
    pub source_values: Map<u32, SourceCellValue>,
    pub merges: Seq<CellRange>,
    pub hyperlinks: Seq<(CellRange, bool, Seq<char>)>,
    pub warnings: Seq<XlsWarning>,
}

/// A hyperlink as (range, external, target text).
pub open spec fn link_view(l: XlsHyperlink) -> (CellRange, bool, Seq<char>) {
    match l.target {
        HyperlinkTarget::External(s) => (l.range, true, s@),
        HyperlinkTarget::Internal(s) => (l.range, false, s@),
    }
}

/// The model of sheet `s` with warnings `w`.
pub open spec fn sheet_model(s: SheetFormatting, w: Seq<XlsWarning>) -> SheetModel {
    SheetModel {
        dimensions: s.dimensions,
        default_col_width: s.default_col_width,
        default_row_height_twips: s.default_row_height_twips,
        columns: s.columns@,
        rows: s.rows@,
        cell_xfs: s.cell_xfs@,
        source_values: s.source_values@,
        merges: s.merges@,
        hyperlinks: s.hyperlinks@.map_values(|l: XlsHyperlink| link_view(l)),
        warnings: w,
    }
}

/// An empty sheet model with warnings `w`.
pub open spec fn empty_sheet(w: Seq<XlsWarning>) -> SheetModel {
    SheetModel {
        dimensions: None,
        default_col_width: None,
        default_row_height_twips: None,
        columns: seq![],
        rows: Map::empty(),
        cell_xfs: Map::empty(),
        source_values: Map::empty(),
        merges: seq![],
        hyperlinks: seq![],
        warnings: w,
    }
}

/// Styling cell (`row`, `col`) with XF `xf`: the cell must be inside the
/// 256-column grid and the styled-cell budget; a missing XF is a warning.
pub open spec fn xf_added(
    m: SheetModel,
    row: u16,
    col: u16,
    xf: u16,
    xfs_len: int,
    limits: XlsLimits,
    sheet: usize,
) -> Option<SheetModel> {
    if col >= 256 || m.cell_xfs.len() >= limits.max_cells {
        None
    } else if xf >= xfs_len {
        Some(
            SheetModel {
                warnings: m.warnings.push(XlsWarning::InvalidStyleReference { sheet, row, col, xf }),
                ..m
            },
        )
    } else {
        Some(SheetModel { cell_xfs: m.cell_xfs.insert(cell_key(row, col), xf), ..m })
    }
}

/// Styles a cell, as [`xf_added`] states.
#[allow(clippy::too_many_arguments)]
fn add_xf(
    row: u16,
    col: u16,
    xf: u16,
    sheet: &mut SheetFormatting,
    xfs_len: usize,
    limits: XlsLimits,
    sheet_index: usize,
    warnings: &mut Vec<XlsWarning>,
) -> (res: Result<(), String>)
    ensures
        match xf_added(sheet_model(*old(sheet), old(warnings)@), row, col, xf, xfs_len as int, limits, sheet_index) {
            Some(m) => res is Ok && sheet_model(*final(sheet), final(warnings)@) == m,
            None => res is Err,
        },
        final(sheet).name == old(sheet).name,
{
    if col >= 256 {
        return Err(message("cell column exceeds BIFF8 grid"));
    }
    if sheet.cell_xfs.len() >= limits.max_cells {
        return Err(message("XLS styled-cell limit exceeded"));
    }
    if xf as usize >= xfs_len {
        warnings.push(XlsWarning::InvalidStyleReference { sheet: sheet_index, row, col, xf });
        return Ok(());
    }
    let key = cell_key_of(row, col);
    sheet.cell_xfs.insert(key, xf);
    Ok(())
}

/// What a cell record `d` does: style the cell it names.
pub open spec fn cell_xf_effect(m: SheetModel, d: Seq<u8>, xfs_len: int, limits: XlsLimits, sheet: usize) -> Option<
    SheetModel,
> {
    if d.len() < 6 {
        None
    } else {
        xf_added(m, le_u16(d, 0), le_u16(d, 2), le_u16(d, 4), xfs_len, limits, sheet)
    }
}

/// Styles the cell a cell record names.
fn add_cell_xf(
    data: &[u8],
    sheet: &mut SheetFormatting,
    xfs_len: usize,
    limits: XlsLimits,
    sheet_index: usize,
    warnings: &mut Vec<XlsWarning>,
) -> (res: Result<(), String>)
    ensures
        match cell_xf_effect(sheet_model(*old(sheet), old(warnings)@), data@, xfs_len as int, limits, sheet_index) {
            Some(m) => res is Ok && sheet_model(*final(sheet), final(warnings)@) == m,
            None => res is Err,
        },
        final(sheet).name == old(sheet).name,
{
    if data.len() < 6 {
        return Err(message("truncated XLS cell record"));
    }
    add_xf(
        read_u16_le(data, 0),
        read_u16_le(data, 2),
        read_u16_le(data, 4),
        sheet,
        xfs_len,
        limits,
        sheet_index,
        warnings,
    )
}

/// Little-endian `u64` stored at byte `i` of `s`.
pub open spec fn le_u64(s: Seq<u8>, i: int) -> u64 {
    (le_u32(s, i) as int + 4294967296 * (le_u32(s, i + 4) as int)) as u64
}

/// Reads the little-endian `u64` at `offset`.
fn read_u64_le(data: &[u8], offset: usize) -> (res: u64)
    requires
        offset + 8 <= data@.len(),
    ensures
        res == le_u64(data@, offset as int),
{
    let len = data.len();
    assert(offset + 4 < len);
    read_u32_le(data, offset) as u64 + 4294967296 * (read_u32_le(data, offset + 4) as u64)
}

/// The source value a NUMBER, RK, BOOLERR or FORMULA record of type `kind`
/// holds: `None` when the record is truncated, `Some(None)` when it holds
/// none (a formula with a string result, another record type).
pub open spec fn source_value_of(kind: u16, d: Seq<u8>) -> Option<Option<SourceCellValue>> {
    if d.len() < 8 {
        None
    } else if kind == NUMBER {
        if d.len() < 14 {
            None
        } else {
            Some(Some(SourceCellValue::Number(le_u64(d, 6))))
        }
    } else if kind == RK {
        if d.len() < 10 {
            None
        } else {
            Some(Some(SourceCellValue::RkNumber(le_u32(d, 6))))
        }
    } else if kind == BOOLERR {
        Some(
            Some(
                if d[7] == 0 {
                    SourceCellValue::Boolean(d[6] != 0)
                } else {
                    SourceCellValue::Error(d[6])
                },
            ),
        )
    } else if kind == FORMULA {
        if d.len() < 14 {
            None
        } else if d[12] == 0xFF && d[13] == 0xFF {
            Some(
                if d[6] == 1 {
                    Some(SourceCellValue::Boolean(d[8] != 0))
                } else if d[6] == 2 {
                    Some(SourceCellValue::Error(d[8]))
                } else {
                    None
                },
            )
        } else {
            Some(Some(SourceCellValue::Number(le_u64(d, 6))))
        }
    } else {
        Some(None)
    }
}

/// A BOOLERR record of at least eight bytes holds a Boolean where its error
/// flag (byte 7) is 0: TRUE exactly when its value byte (byte 6) is not 0,
/// so value byte 1 is TRUE and value byte 0 is FALSE, and two such records
/// whose value bytes differ in being 0 hold opposite values. Where the flag
/// is set, the value byte is the error code.
pub proof fn lemma_boolerr_value(d: Seq<u8>, e: Seq<u8>)
    requires
        d.len() >= 8,
        e.len() >= 8,
    ensures
        d[7] == 0 ==> source_value_of(BOOLERR, d) == Some(Some(SourceCellValue::Boolean(d[6] != 0))),
        d[7] == 0 && d[6] == 1 ==> source_value_of(BOOLERR, d) == Some(Some(SourceCellValue::Boolean(true))),
        d[7] == 0 && d[6] == 0 ==> source_value_of(BOOLERR, d) == Some(Some(SourceCellValue::Boolean(false))),
        (d[7] == 0 && e[7] == 0 && (d[6] == 0) != (e[6] == 0)) ==> source_value_of(BOOLERR, d)
            != source_value_of(BOOLERR, e),
        d[7] != 0 ==> source_value_of(BOOLERR, d) == Some(Some(SourceCellValue::Error(d[6]))),
{
    assert(BOOLERR != NUMBER && BOOLERR != RK);
}

/// Reads the cached source value of a value or formula cell record.
pub fn parse_source_value(kind: u16, data: &[u8]) -> (res: Result<Option<SourceCellValue>, String>)
    ensures
        match source_value_of(kind, data@) {
            Some(v) => res == Ok::<Option<SourceCellValue>, String>(v),
            None => res is Err,
        },
{
    if data.len() < 8 {
        return Err(message("truncated numeric XLS cell record"));
    }
    if kind == NUMBER {
        if data.len() < 14 {
            return Err(message("truncated NUMBER record"));
        }
        Ok(Some(SourceCellValue::Number(read_u64_le(data, 6))))
    } else if kind == RK {
        if data.len() < 10 {
            return Err(message("truncated RK record"));
        }
        Ok(Some(SourceCellValue::RkNumber(read_u32_le(data, 6))))
    } else if kind == BOOLERR {
        Ok(
            Some(
                if data[7] == 0 {
                    SourceCellValue::Boolean(data[6] != 0)
                } else {
                    SourceCellValue::Error(data[6])
                },
            ),
        )
    } else if kind == FORMULA {
        if data.len() < 14 {
            return Err(message("truncated FORMULA record"));
        }
        if data[12] == 0xFF && data[13] == 0xFF {
            Ok(
                if data[6] == 1 {
                    Some(SourceCellValue::Boolean(data[8] != 0))
                } else if data[6] == 2 {
                    Some(SourceCellValue::Error(data[8]))
                } else {
                    None
                },
            )
        } else {
            Ok(Some(SourceCellValue::Number(read_u64_le(data, 6))))
        }
    } else {
        Ok(None)
    }
}

/// Styling the first `k` cells of a MULRK (`width` 6, with values) or
/// MULBLANK (`width` 2) record `d` on `row` from `first_col`.
pub open spec fn multi_fold(
    m: SheetModel,
    d: Seq<u8>,
    width: int,
    row: u16,
    first_col: u16,
    k: int,
    xfs_len: int,
    limits: XlsLimits,
    sheet: usize,
) -> Option<SheetModel>
    decreases k,
{
    if k <= 0 {
        Some(m)
    } else {
        match multi_fold(m, d, width, row, first_col, k - 1, xfs_len, limits, sheet) {
            None => None,
            Some(m1) => {
                let col = first_col + (k - 1);
                if col > u16::MAX {
                    None
                } else {
                    match xf_added(m1, row, col as u16, le_u16(d, 4 + width * (k - 1)), xfs_len, limits, sheet) {
                        None => None,
                        Some(m2) => if width == 6 {
                            Some(
                                SheetModel {
                                    source_values: m2.source_values.insert(
                                        cell_key(row, col as u16),
                                        SourceCellValue::RkNumber(le_u32(d, 6 + 6 * (k - 1))),
                                    ),
                                    ..m2
                                },
                            )
                        } else {
                            Some(m2)
                        },
                    }
                }
            },
        }
    }
}

/// What a MULRK (`width` 6) or MULBLANK (`width` 2) record does: style each
/// cell from the first to the last column it names, keeping RK values.
pub open spec fn multi_effect(
    m: SheetModel,
    d: Seq<u8>,
    width: int,
    xfs_len: int,
    limits: XlsLimits,
    sheet: usize,
) -> Option<SheetModel> {
    let minimum: int = if width == 6 {
        12
    } else {
        8
    };
    if d.len() < minimum || (d.len() - 6) % width != 0 {
        None
    } else {
        let count = (d.len() - 6) / width;
        let first_col = le_u16(d, 2);
        let last_col = le_u16(d, d.len() - 2);
        if last_col < first_col || last_col - first_col + 1 != count {
            None
        } else {
            multi_fold(m, d, width, le_u16(d, 0), first_col, count, xfs_len, limits, sheet)
        }
    }
}

/// Styles the cells of a MULRK (`width` 6) or MULBLANK (`width` 2) record.
fn add_multi_xfs(
    data: &[u8],
    width: usize,
    sheet: &mut SheetFormatting,
    xfs_len: usize,
    limits: XlsLimits,
    sheet_index: usize,
    warnings: &mut Vec<XlsWarning>,
) -> (res: Result<(), String>)
    requires
        width == 6 || width == 2,
    ensures
        match multi_effect(sheet_model(*old(sheet), old(warnings)@), data@, width as int, xfs_len as int, limits, sheet_index) {
            Some(m) => res is Ok && sheet_model(*final(sheet), final(warnings)@) == m,
            None => res is Err,
        },
        final(sheet).name == old(sheet).name,
{
    let len = data.len();
    let minimum: usize = if width == 6 {
        12
    } else {
        8
    };
    if len < minimum || (len - 6) % width != 0 {
        return Err(message("invalid MULRK or MULBLANK record"));
    }
    let row = read_u16_le(data, 0);
    let first_col = read_u16_le(data, 2);
    let count = (len - 6) / width;
    let last_col = read_u16_le(data, len - 2);
    if last_col < first_col || (last_col - first_col) as usize + 1 != count {
        return Err(message("MULRK or MULBLANK column count mismatch"));
    }
    let ghost start = sheet_model(*sheet, warnings@);
    let mut index: usize = 0;
    while index < count
        invariant
            width == 6 || width == 2,
            len == data@.len(),
            count == (len - 6) / width as int,
            (len - 6) % width as int == 0,
            len >= 8,
            row == le_u16(data@, 0),
            first_col == le_u16(data@, 2),
            last_col == le_u16(data@, len - 2),
            last_col - first_col + 1 == count,
            index <= count,
            multi_fold(start, data@, width as int, row, first_col, index as int, xfs_len as int, limits, sheet_index)
                == Some(sheet_model(*sheet, warnings@)),
            sheet.name == old(sheet).name,
            start == sheet_model(*old(sheet), old(warnings)@),
        decreases count - index,
    {
        let col = first_col + index as u16;
        assert(4 + width * index + 2 <= len) by (nonlinear_arith)
            requires
                index < count,
                count == (len - 6) / width as int,
                (len - 6) % width as int == 0,
                width > 0,
                len >= 8,
        ;
        let xf = read_u16_le(data, 4 + width * index);
        let result = add_xf(row, col, xf, sheet, xfs_len, limits, sheet_index, warnings);
        if result.is_err() {
            proof {
                lemma_multi_failed(start, data@, width as int, row, first_col, index as int + 1, count as int, xfs_len as int, limits, sheet_index);
            }
            return Err(message("cell column exceeds BIFF8 grid or styled-cell limit"));
        }
        if width == 6 {
            assert(6 + 6 * index + 4 <= len) by (nonlinear_arith)
                requires
                    index < count,
                    count == (len - 6) / 6,
                    (len - 6) % 6 == 0,
                    len >= 12,
            ;
            let value = SourceCellValue::RkNumber(read_u32_le(data, 6 + 6 * index));
            let key = cell_key_of(row, col);
            sheet.source_values.insert(key, value);
        }
        index = index + 1;
    }
    Ok(())
}

/// Once a multi-cell fold fails, folding more cells keeps the failure.
proof fn lemma_multi_failed(
    m: SheetModel,
    d: Seq<u8>,
    width: int,
    row: u16,
    first_col: u16,
    i: int,
    j: int,
    xfs_len: int,
    limits: XlsLimits,
    sheet: usize,
)
    requires
        0 <= i <= j,
        multi_fold(m, d, width, row, first_col, i, xfs_len, limits, sheet) is None,
    ensures
        multi_fold(m, d, width, row, first_col, j, xfs_len, limits, sheet) is None,
    decreases j - i,
{
    if j > i {
        lemma_multi_failed(m, d, width, row, first_col, i, j - 1, xfs_len, limits, sheet);
    }
}

/// What a COLINFO record does: add its band within the band budget; a
/// band naming a missing XF falls back to XF 0 with a warning.
pub open spec fn column_effect(m: SheetModel, d: Seq<u8>, xfs_len: int, limits: XlsLimits, sheet: usize) -> Option<
    SheetModel,
> {
    if m.columns.len() >= limits.max_ranges {
        None
    } else {
        match colinfo_outcome(d) {
            None => None,
            Some(None) => Some(m),
            Some(Some(c)) => if c.xf >= xfs_len {
                Some(
                    SheetModel {
                        columns: m.columns.push(ColumnBand { xf: 0, ..c }),
                        warnings: m.warnings.push(
                            XlsWarning::InvalidColumnStyleReference {
                                sheet,
                                first_col: c.first,
                                last_col: c.last,
                                xf: c.xf,
                            },
                        ),
                        ..m
                    },
                )
            } else {
                Some(SheetModel { columns: m.columns.push(c), ..m })
            },
        }
    }
}

/// What a ROW record does: set the row's layout; a missing row XF is
/// dropped with a warning.
pub open spec fn row_effect(m: SheetModel, d: Seq<u8>, xfs_len: int, sheet: usize) -> Option<SheetModel> {
    if d.len() < 16 {
        None
    } else {
        let (row, layout) = row_of(d);
        match layout.xf {
            Some(xf) => if xf >= xfs_len {
                Some(
                    SheetModel {
                        rows: m.rows.insert(row, RowLayout { xf: None, ..layout }),
                        warnings: m.warnings.push(XlsWarning::InvalidRowStyleReference { sheet, row, xf }),
                        ..m
                    },
                )
            } else {
                Some(SheetModel { rows: m.rows.insert(row, layout), ..m })
            },
            None => Some(SheetModel { rows: m.rows.insert(row, layout), ..m }),
        }
    }
}

/// What a HLINK record does: add its link within the link budget, or warn
/// at its first cell when no target can be extracted.
pub open spec fn link_effect(m: SheetModel, d: Seq<u8>, limits: XlsLimits, sheet: usize) -> Option<SheetModel> {
    if m.hyperlinks.len() >= limits.max_hyperlinks {
        None
    } else {
        match hlink_target(d) {
            Some((external, text)) => Some(
                SheetModel { hyperlinks: m.hyperlinks.push((range_of(d), external, text)), ..m },
            ),
            None => {
                let r = if d.len() >= 8 {
                    range_of(d)
                } else {
                    CellRange { first_row: 0, last_row: 0, first_col: 0, last_col: 0 }
                };
                Some(
                    SheetModel {
                        warnings: m.warnings.push(
                            XlsWarning::UnsupportedHyperlink { sheet, row: r.first_row, col: r.first_col },
                        ),
                        ..m
                    },
                )
            },
        }
    }
}

/// What a MERGEDCELLS record does: append its ranges within the range
/// budget; `None` when it is truncated, over budget or a range is invalid.
pub open spec fn merge_effect(m: SheetModel, d: Seq<u8>, limits: XlsLimits) -> Option<SheetModel> {
    if d.len() < 2 {
        None
    } else {
        let count = le_u16(d, 0) as int;
        if m.merges.len() + count > limits.max_ranges || d.len() < count * 8 + 2 {
            None
        } else if valid_prefix(merge_ranges(d, count)) != count {
            None
        } else {
            Some(SheetModel { merges: m.merges + merge_ranges(d, count), ..m })
        }
    }
}

/// What a record of a worksheet substream of type `kind` with payload `d`
/// does to the sheet; `None` when it is malformed or over a budget.
pub open spec fn record_effect(
    m: SheetModel,
    kind: u16,
    d: Seq<u8>,
    xfs_len: int,
    limits: XlsLimits,
    sheet: usize,
) -> Option<SheetModel> {
    if kind == DIMENSIONS {
        match dimensions_outcome(d) {
            None => None,
            Some(dims) => Some(SheetModel { dimensions: dims, ..m }),
        }
    } else if kind == DEFCOLWIDTH || kind == STANDARDWIDTH {
        if d.len() < 2 {
            None
        } else if kind == DEFCOLWIDTH {
            Some(SheetModel { default_col_width: Some(DefaultColumnWidth::Characters(le_u16(d, 0))), ..m })
        } else {
            Some(SheetModel { default_col_width: Some(DefaultColumnWidth::Units(le_u16(d, 0))), ..m })
        }
    } else if kind == DEFAULTROWHEIGHT {
        if d.len() < 4 {
            None
        } else {
            Some(SheetModel { default_row_height_twips: Some(le_u16(d, 2) & 0x7FFF), ..m })
        }
    } else if kind == COLINFO {
        column_effect(m, d, xfs_len, limits, sheet)
    } else if kind == ROW {
        row_effect(m, d, xfs_len, sheet)
    } else if kind == MERGEDCELLS {
        merge_effect(m, d, limits)
    } else if kind == HLINK {
        link_effect(m, d, limits, sheet)
    } else if kind == LABELSST || kind == LABEL || kind == RSTRING || kind == BLANK {
        cell_xf_effect(m, d, xfs_len, limits, sheet)
    } else if kind == NUMBER || kind == RK || kind == BOOLERR || kind == FORMULA {
        match cell_xf_effect(m, d, xfs_len, limits, sheet) {
            None => None,
            Some(m1) => match source_value_of(kind, d) {
                None => None,
                Some(None) => Some(m1),
                Some(Some(v)) => Some(
                    SheetModel {
                        source_values: m1.source_values.insert(cell_key(le_u16(d, 0), le_u16(d, 2)), v),
                        ..m1
                    },
                ),
            },
        }
    } else if kind == MULRK {
        multi_effect(m, d, 6, xfs_len, limits, sheet)
    } else if kind == MULBLANK {
        multi_effect(m, d, 2, xfs_len, limits, sheet)
    } else {
        Some(m)
    }
}

/// Adds a COLINFO band.
fn add_column_layout(
    data: &[u8],
    sheet: &mut SheetFormatting,
    xfs_len: usize,
    limits: XlsLimits,
    sheet_index: usize,
    warnings: &mut Vec<XlsWarning>,
) -> (res: Result<(), String>)
    ensures
        match column_effect(sheet_model(*old(sheet), old(warnings)@), data@, xfs_len as int, limits, sheet_index) {
            Some(m) => res is Ok && sheet_model(*final(sheet), final(warnings)@) == m,
            None => res is Err,
        },
        final(sheet).name == old(sheet).name,
{
    if sheet.columns.len() >= limits.max_ranges {
        return Err(message("XLS column band limit exceeded"));
    }
    let mut column = match parse_colinfo(data)? {
        Some(c) => c,
        None => {
            return Ok(());
        },
    };
    if column.xf as usize >= xfs_len {
        warnings.push(
            XlsWarning::InvalidColumnStyleReference {
                sheet: sheet_index,
                first_col: column.first,
                last_col: column.last,
                xf: column.xf,
            },
        );
        column.xf = 0;
    }
    sheet.columns.push(column);
    Ok(())
}

/// Sets a ROW record's layout.
fn add_row_layout(
    data: &[u8],
    sheet: &mut SheetFormatting,
    xfs_len: usize,
    sheet_index: usize,
    warnings: &mut Vec<XlsWarning>,
) -> (res: Result<(), String>)
    ensures
        match row_effect(sheet_model(*old(sheet), old(warnings)@), data@, xfs_len as int, sheet_index) {
            Some(m) => res is Ok && sheet_model(*final(sheet), final(warnings)@) == m,
            None => res is Err,
        },
        final(sheet).name == old(sheet).name,
{
    let (row, mut layout) = parse_row(data)?;
    if let Some(xf) = layout.xf {
        if xf as usize >= xfs_len {
            warnings.push(XlsWarning::InvalidRowStyleReference { sheet: sheet_index, row, xf });
            layout.xf = None;
        }
    }
    sheet.rows.insert(row, layout);
    Ok(())
}

/// Adds a hyperlink, or a warning when its target cannot be extracted.
fn add_hyperlink(
    data: &[u8],
    sheet: &mut SheetFormatting,
    limits: XlsLimits,
    sheet_index: usize,
    warnings: &mut Vec<XlsWarning>,
) -> (res: Result<(), String>)
    ensures
        match link_effect(sheet_model(*old(sheet), old(warnings)@), data@, limits, sheet_index) {
            Some(m) => res is Ok && sheet_model(*final(sheet), final(warnings)@) == m,
            None => res is Err,
        },
        final(sheet).name == old(sheet).name,
{
    if sheet.hyperlinks.len() >= limits.max_hyperlinks {
        return Err(message("XLS hyperlink limit exceeded"));
    }
    match parse_hlink(data) {
        Ok(link) => {
            let ghost before = sheet.hyperlinks@;
            sheet.hyperlinks.push(link);
            assert(sheet.hyperlinks@.map_values(|l: XlsHyperlink| link_view(l)) =~= before.map_values(
                |l: XlsHyperlink| link_view(l),
            ).push(link_view(link)));
        },
        Err(_) => {
            let range = match parse_range(data) {
                Some(r) => r,
                None => CellRange { first_row: 0, last_row: 0, first_col: 0, last_col: 0 },
            };
            warnings.push(
                XlsWarning::UnsupportedHyperlink { sheet: sheet_index, row: range.first_row, col: range.first_col },
            );
        },
    }
    Ok(())
}

/// Applies one worksheet record other than BOF and EOF.
#[verifier::rlimit(40)]
fn apply_record(
    kind: u16,
    data: &[u8],
    sheet: &mut SheetFormatting,
    xfs_len: usize,
    limits: XlsLimits,
    sheet_index: usize,
    warnings: &mut Vec<XlsWarning>,
) -> (res: Result<(), String>)
    ensures
        match record_effect(sheet_model(*old(sheet), old(warnings)@), kind, data@, xfs_len as int, limits, sheet_index) {
            Some(m) => res is Ok && sheet_model(*final(sheet), final(warnings)@) == m,
            None => res is Err,
        },
        final(sheet).name == old(sheet).name,
{
    if kind == DIMENSIONS {
        sheet.dimensions = parse_dimensions(data)?;
        Ok(())
    } else if kind == DEFCOLWIDTH || kind == STANDARDWIDTH {
        if data.len() < 2 {
            return Err(message("truncated u16"));
        }
        let value = read_u16_le(data, 0);
        sheet.default_col_width = Some(
            if kind == DEFCOLWIDTH {
                DefaultColumnWidth::Characters(value)
            } else {
                DefaultColumnWidth::Units(value)
            },
        );
        Ok(())
    } else if kind == DEFAULTROWHEIGHT {
        if data.len() < 4 {
            return Err(message("truncated DEFAULTROWHEIGHT record"));
        }
        sheet.default_row_height_twips = Some(read_u16_le(data, 2) & 0x7FFF);
        Ok(())
    } else if kind == COLINFO {
        add_column_layout(data, sheet, xfs_len, limits, sheet_index, warnings)
    } else if kind == ROW {
        add_row_layout(data, sheet, xfs_len, sheet_index, warnings)
    } else if kind == MERGEDCELLS {
        let ghost before = sheet.merges@;
        let result = parse_merges(data, &mut sheet.merges, limits.max_ranges);
        proof {
            if data@.len() >= 2 {
                let count = le_u16(data@, 0) as int;
                if !(before.len() + count > limits.max_ranges || data@.len() < count * 8 + 2) {
                    assert(merge_ranges(data@, count).take(count) =~= merge_ranges(data@, count));
                }
            }
        }
        result
    } else if kind == HLINK {
        add_hyperlink(data, sheet, limits, sheet_index, warnings)
    } else if kind == LABELSST || kind == LABEL || kind == RSTRING || kind == BLANK {
        add_cell_xf(data, sheet, xfs_len, limits, sheet_index, warnings)
    } else if kind == NUMBER || kind == RK || kind == BOOLERR || kind == FORMULA {
        add_cell_xf(data, sheet, xfs_len, limits, sheet_index, warnings)?;
        if let Some(value) = parse_source_value(kind, data)? {
            let key = cell_key_of(read_u16_le(data, 0), read_u16_le(data, 2));
            sheet.source_values.insert(key, value);
        }
        Ok(())
    } else if kind == MULRK {
        add_multi_xfs(data, 6, sheet, xfs_len, limits, sheet_index, warnings)
    } else if kind == MULBLANK {
        add_multi_xfs(data, 2, sheet, xfs_len, limits, sheet_index, warnings)
    } else {
        Ok(())
    }
}

/// The records as (type, payload).
pub open spec fn records_view(records: Seq<Record>) -> Seq<(u16, Seq<u8>)> {
    records.map_values(|r: Record| (r.kind, r.data@))
}

/// Reading the first `k` records of a worksheet substream: the sheet so
/// far, whether its BOF was seen, and whether its EOF was. Records before
/// the BOF are skipped, a second BOF fails, and the EOF ends the sheet.
pub open spec fn sheet_fold(
    recs: Seq<(u16, Seq<u8>)>,
    k: int,
    init: SheetModel,
    xfs_len: int,
    limits: XlsLimits,
    sheet: usize,
) -> Option<(SheetModel, bool, bool)>
    decreases k,
{
    if k <= 0 {
        Some((init, false, false))
    } else {
        match sheet_fold(recs, k - 1, init, xfs_len, limits, sheet) {
            None => None,
            Some((m, started, ended)) => if ended {
                Some((m, started, ended))
            } else {
                let (kind, d) = recs[k - 1];
                if kind == BOF {
                    if started {
                        None
                    } else {
                        Some((m, true, false))
                    }
                } else if !started {
                    Some((m, false, false))
                } else if kind == EOF {
                    Some((m, true, true))
                } else {
                    match record_effect(m, kind, d, xfs_len, limits, sheet) {
                        None => None,
                        Some(m1) => Some((m1, true, false)),
                    }
                }
            },
        }
    }
}

/// The larger of two values.
pub open spec fn max16(a: u16, b: u16) -> u16 {
    if a >= b {
        a
    } else {
        b
    }
}

/// The smaller of two values.
pub open spec fn min16(a: u16, b: u16) -> u16 {
    if a <= b {
        a
    } else {
        b
    }
}

/// The bands that meet the used range `dims`, clamped to it.
pub open spec fn clamp_columns(cols: Seq<ColumnBand>, dims: CellRange) -> Seq<ColumnBand>
    decreases cols.len(),
{
    if cols.len() == 0 {
        seq![]
    } else {
        let rest = clamp_columns(cols.drop_last(), dims);
        let c = cols.last();
        if c.first > dims.last_col || c.last < dims.first_col {
            rest
        } else {
            rest.push(ColumnBand { first: max16(c.first, dims.first_col), last: min16(c.last, dims.last_col), ..c })
        }
    }
}

/// The worksheet read from `recs`: the fold over every record, with the
/// column bands clamped to the used range when there is one.
pub open spec fn sheet_result(
    recs: Seq<(u16, Seq<u8>)>,
    init: SheetModel,
    xfs_len: int,
    limits: XlsLimits,
    sheet: usize,
) -> Option<SheetModel> {
    match sheet_fold(recs, recs.len() as int, init, xfs_len, limits, sheet) {
        None => None,
        Some((m, _, _)) => match m.dimensions {
            Some(dims) => Some(SheetModel { columns: clamp_columns(m.columns, dims), ..m }),
            None => Some(m),
        },
    }
}

/// Once the sheet fold fails, reading more records keeps the failure.
proof fn lemma_sheet_failed(
    recs: Seq<(u16, Seq<u8>)>,
    i: int,
    j: int,
    init: SheetModel,
    xfs_len: int,
    limits: XlsLimits,
    sheet: usize,
)
    requires
        0 <= i <= j,
        sheet_fold(recs, i, init, xfs_len, limits, sheet) is None,
    ensures
        sheet_fold(recs, j, init, xfs_len, limits, sheet) is None,
    decreases j - i,
{
    if j > i {
        lemma_sheet_failed(recs, i, j - 1, init, xfs_len, limits, sheet);
    }
}

/// Once the EOF is read, later records change nothing.
proof fn lemma_sheet_ended(
    recs: Seq<(u16, Seq<u8>)>,
    i: int,
    j: int,
    init: SheetModel,
    xfs_len: int,
    limits: XlsLimits,
    sheet: usize,
)
    requires
        0 <= i <= j,
        sheet_fold(recs, i, init, xfs_len, limits, sheet) matches Some((_, _, ended)) && ended,
    ensures
        sheet_fold(recs, j, init, xfs_len, limits, sheet) == sheet_fold(recs, i, init, xfs_len, limits, sheet),
    decreases j - i,
{
    if j > i {
        lemma_sheet_ended(recs, i, j - 1, init, xfs_len, limits, sheet);
    }
}

/// Reads the formatting of the worksheet whose substream starts at the
/// first of `records`.
#[verifier::rlimit(40)]
pub fn parse_sheet(
    records: &[Record],
    name: String,
    xfs: &[crate::xls_biff::XlsXf],
    limits: XlsLimits,
    sheet_index: usize,
    warnings: &mut Vec<XlsWarning>,
) -> (res: Result<SheetFormatting, String>)
    ensures
        match sheet_result(records_view(records@), empty_sheet(old(warnings)@), xfs@.len() as int, limits, sheet_index) {
            Some(m) => res matches Ok(s) && s.name == name && sheet_model(s, final(warnings)@) == m,
            None => res is Err,
        },
{
    let ghost recs = records_view(records@);
    let ghost init = empty_sheet(warnings@);
    assert(recs.len() == records@.len());
    let xfs_len = xfs.len();
    let mut sheet = SheetFormatting {
        name,
        dimensions: None,
        default_col_width: None,
        default_row_height_twips: None,
        columns: Vec::new(),
        rows: BTreeMap::new(),
        cell_xfs: HashMap::new(),
        source_values: HashMap::new(),
        merges: Vec::new(),
        hyperlinks: Vec::new(),
    };
    assert(sheet.hyperlinks@.map_values(|l: XlsHyperlink| link_view(l)) =~= Seq::<(CellRange, bool, Seq<char>)>::empty());
    assert(sheet_model(sheet, warnings@) == init);
    let mut started = false;
    let mut ended = false;
    let mut index: usize = 0;
    while index < records.len() && !ended
        invariant
            index <= records@.len(),
            recs == records_view(records@),
            recs.len() == records@.len(),
            init == empty_sheet(old(warnings)@),
            xfs_len == xfs@.len(),
            sheet.name == name,
            sheet_fold(recs, index as int, init, xfs_len as int, limits, sheet_index) == Some(
                (sheet_model(sheet, warnings@), started, ended),
            ),
        decreases records@.len() - index,
    {
        let record = &records[index];
        assert(recs[index as int] == (record.kind, record.data@));
        if record.kind == BOF {
            if started {
                proof {
                    assert(sheet_fold(recs, index as int + 1, init, xfs_len as int, limits, sheet_index) is None);
                    lemma_sheet_failed(recs, index as int + 1, recs.len() as int, init, xfs_len as int, limits, sheet_index);
                }
                return Err(message("nested worksheet BOF"));
            }
            started = true;
        } else if !started {
        } else if record.kind == EOF {
            ended = true;
        } else {
            let result = apply_record(record.kind, record.data, &mut sheet, xfs_len, limits, sheet_index, warnings);
            if result.is_err() {
                proof {
                    assert(sheet_fold(recs, index as int + 1, init, xfs_len as int, limits, sheet_index) is None);
                    lemma_sheet_failed(recs, index as int + 1, recs.len() as int, init, xfs_len as int, limits, sheet_index);
                }
                return Err(message("invalid worksheet record"));
            }
        }
        index = index + 1;
    }
    proof {
        if ended {
            lemma_sheet_ended(recs, index as int, recs.len() as int, init, xfs_len as int, limits, sheet_index);
        }
    }
    if let Some(dimensions) = sheet.dimensions {
        let mut kept: Vec<ColumnBand> = Vec::new();
        let mut k: usize = 0;
        while k < sheet.columns.len()
            invariant
                k <= sheet.columns@.len(),
                kept@ == clamp_columns(sheet.columns@.take(k as int), dimensions),
            decreases sheet.columns@.len() - k,
        {
            let column = sheet.columns[k];
            assert(sheet.columns@.take(k + 1).drop_last() =~= sheet.columns@.take(k as int));
            assert(sheet.columns@.take(k + 1).last() == column);
            if !(column.first > dimensions.last_col || column.last < dimensions.first_col) {
                kept.push(
                    ColumnBand {
                        first: if column.first >= dimensions.first_col {
                            column.first
                        } else {
                            dimensions.first_col
                        },
                        last: if column.last <= dimensions.last_col {
                            column.last
                        } else {
                            dimensions.last_col
                        },
                        ..column
                    },
                );
            }
            k = k + 1;
        }
        assert(sheet.columns@.take(sheet.columns@.len() as int) =~= sheet.columns@);
        sheet.columns = kept;
    }
    Ok(sheet)
}

} // verus!

//! Workbook-level BIFF8 formatting: the globals substream (fonts, number
//! formats, XF records, palette, sheet directory) and every worksheet.

use vstd::prelude::*;

use std::collections::BTreeMap;

use crate::binary::{le_u16, le_u32, read_u16_le};
use crate::container::{CompoundFile, compound_has_stream, compound_opens, compound_stream};
use crate::error::message;
use crate::xls_biff::{
    BOF, BOUNDSHEET, EOF, FILEPASS, FONT, FORMAT, PALETTE, Record, XF, XlsFont, XlsLimits, XlsXf, font_fields,
    format_chars_offset, palette_colors, parse_boundsheet, parse_font, parse_format, parse_palette, parse_xf,
    SheetInfo, record_list, records, records_match, xf_of, xl_chars,
};
use crate::xls_sheet::{
    SheetFormatting, SheetModel, XlsWarning, empty_sheet, records_view, sheet_model, sheet_result, parse_sheet,
};

verus! {

broadcast use vstd::std_specs::btree::group_btree_axioms;

/// Formatting of a whole workbook.
#[derive(Debug)]
pub struct WorkbookFormatting {
    pub fonts: Vec<XlsFont>,
    pub xfs: Vec<XlsXf>,
    pub custom_formats: BTreeMap<u16, String>,
    pub palette: Vec<[u8; 3]>,
    pub sheets: Vec<SheetFormatting>,
    pub warnings: Vec<XlsWarning>,
}

/// What the globals substream holds: the FONT record payloads, the XFs,
/// the custom number formats, the palette and the sheet directory as
/// (stream offset, name, is a worksheet).
pub struct GlobalsModel {
    pub fonts: Seq<Seq<u8>>,
    pub xfs: Seq<XlsXf>,
    pub formats: Map<u16, Seq<char>>,
    pub palette: Seq<Seq<u8>>,
    pub sheets: Seq<(u32, Seq<char>, bool)>,
}

/// The font a FONT record payload `d` yields.
pub open spec fn font_from(f: XlsFont, d: Seq<u8>) -> bool {
    font_fields(f, d, xl_chars(d, 16, d[14] as int, d[15] & 1 != 0)->Some_0)
}

/// Whether a FONT record payload parses.
pub open spec fn font_parses(d: Seq<u8>) -> bool {
    d.len() >= 16 && xl_chars(d, 16, d[14] as int, d[15] & 1 != 0) is Some
}

/// The sheet directory entry a BOUNDSHEET payload yields.
pub open spec fn boundsheet_outcome(d: Seq<u8>) -> Option<(u32, Seq<char>, bool)> {
    if d.len() < 8 {
        None
    } else {
        match xl_chars(d, 8, d[6] as int, d[7] & 1 != 0) {
            None => None,
            Some(name) => Some((le_u32(d, 0), name, d[5] == 0)),
        }
    }
}

/// The (id, code) a FORMAT payload yields.
pub open spec fn format_outcome(d: Seq<u8>) -> Option<(u16, Seq<char>)> {
    if d.len() < 5 {
        None
    } else {
        match xl_chars(d, format_chars_offset(d), le_u16(d, 2) as int, d[4] & 1 != 0) {
            None => None,
            Some(code) => Some((le_u16(d, 0), code)),
        }
    }
}

/// The colors a PALETTE payload yields.
pub open spec fn palette_outcome(d: Seq<u8>) -> Option<Seq<Seq<u8>>> {
    if d.len() < 2 {
        None
    } else {
        let count = le_u16(d, 0) as int;
        if count > 56 || d.len() < count * 4 + 2 {
            None
        } else {
            Some(palette_colors(d, count))
        }
    }
}

/// What a globals record of type `kind` with payload `d` does.
pub open spec fn globals_step(g: GlobalsModel, kind: u16, d: Seq<u8>, limits: XlsLimits) -> Option<GlobalsModel> {
    if kind == FILEPASS {
        None
    } else if kind == BOUNDSHEET {
        if g.sheets.len() >= limits.max_sheets {
            None
        } else {
            match boundsheet_outcome(d) {
                None => None,
                Some(info) => Some(GlobalsModel { sheets: g.sheets.push(info), ..g }),
            }
        }
    } else if kind == FONT {
        if g.fonts.len() >= limits.max_fonts || !font_parses(d) {
            None
        } else {
            Some(GlobalsModel { fonts: g.fonts.push(d), ..g })
        }
    } else if kind == FORMAT {
        if g.formats.len() >= limits.max_formats {
            None
        } else {
            match format_outcome(d) {
                None => None,
                Some((id, code)) => Some(GlobalsModel { formats: g.formats.insert(id, code), ..g }),
            }
        }
    } else if kind == XF {
        if g.xfs.len() >= limits.max_xfs || d.len() != 20 {
            None
        } else {
            Some(GlobalsModel { xfs: g.xfs.push(xf_of(d)), ..g })
        }
    } else if kind == PALETTE {
        match palette_outcome(d) {
            None => None,
            Some(colors) => Some(GlobalsModel { palette: colors, ..g }),
        }
    } else {
        Some(g)
    }
}

/// An empty globals model.
pub open spec fn empty_globals() -> GlobalsModel {
    GlobalsModel { fonts: seq![], xfs: seq![], formats: Map::empty(), palette: seq![], sheets: seq![] }
}

/// Reading the first `k` records of the stream as globals: the model so
/// far and whether the globals EOF was seen.
pub open spec fn globals_fold(recs: Seq<(u16, Seq<u8>)>, k: int, limits: XlsLimits) -> Option<(GlobalsModel, bool)>
    decreases k,
{
    if k <= 0 {
        Some((empty_globals(), false))
    } else {
        match globals_fold(recs, k - 1, limits) {
            None => None,
            Some((g, ended)) => if ended {
                Some((g, true))
            } else if recs[k - 1].0 == EOF {
                Some((g, true))
            } else {
                match globals_step(g, recs[k - 1].0, recs[k - 1].1, limits) {
                    None => None,
                    Some(g1) => Some((g1, false)),
                }
            },
        }
    }
}

/// The position of the first record from `i` that starts at byte `offset`.
pub open spec fn record_at(list: Seq<(u16, int, int)>, offset: int, i: int) -> Option<int>
    decreases list.len() - i,
{
    if i < 0 || i >= list.len() {
        None
    } else if list[i].1 == offset {
        Some(i)
    } else {
        record_at(list, offset, i + 1)
    }
}

/// The records of `data` from position `start` on, as (type, payload).
pub open spec fn records_from(data: Seq<u8>, list: Seq<(u16, int, int)>, start: int) -> Seq<(u16, Seq<u8>)> {
    Seq::new(
        (list.len() - start) as nat,
        |i: int| (list[start + i].0, data.subrange(list[start + i].1 + 4, list[start + i].2)),
    )
}

/// Reading the worksheets of the first `k` directory entries: the sheets
/// read, as (name, sheet), and the warnings so far.
pub open spec fn sheets_fold(
    data: Seq<u8>,
    list: Seq<(u16, int, int)>,
    infos: Seq<(u32, Seq<char>, bool)>,
    k: int,
    xfs_len: int,
    limits: XlsLimits,
) -> Option<(Seq<(Seq<char>, SheetModel)>, Seq<XlsWarning>)>
    decreases k,
{
    if k <= 0 {
        Some((seq![], seq![]))
    } else {
        match sheets_fold(data, list, infos, k - 1, xfs_len, limits) {
            None => None,
            Some((sheets, warnings)) => if !infos[k - 1].2 {
                Some((sheets, warnings))
            } else {
                match record_at(list, infos[k - 1].0 as int, 0) {
                    None => None,
                    Some(start) => match sheet_result(
                        records_from(data, list, start),
                        empty_sheet(warnings),
                        xfs_len,
                        limits,
                        sheets.len() as usize,
                    ) {
                        None => None,
                        Some(m) => Some((sheets.push((infos[k - 1].1, m)), m.warnings)),
                    },
                }
            },
        }
    }
}

/// The workbook a BIFF8 `Workbook` stream yields: its globals and its
/// worksheets with the warnings raised, or `None` when the stream is not a
/// well-formed BIFF8 workbook within the limits.
pub open spec fn workbook_result(data: Seq<u8>, limits: XlsLimits) -> Option<
    (GlobalsModel, Seq<(Seq<char>, SheetModel)>, Seq<XlsWarning>),
> {
    match record_list(data, 0, 0, limits.max_records as int) {
        None => None,
        Some(list) => if list.len() == 0 {
            None
        } else {
            let first = data.subrange(list[0].1 + 4, list[0].2);
            if list[0].0 != BOF || first.len() < 4 || le_u16(first, 0) != 0x0600 {
                None
            } else {
                let recs = records_from(data, list, 0);
                match globals_fold(recs, recs.len() as int, limits) {
                    None => None,
                    Some((g, _)) => match sheets_fold(
                        data,
                        list,
                        g.sheets,
                        g.sheets.len() as int,
                        g.xfs.len() as int,
                        limits,
                    ) {
                        None => None,
                        Some((sheets, warnings)) => Some((g, sheets, warnings)),
                    },
                }
            }
        },
    }
}

/// Whether workbook `w` holds globals `g`, worksheets `sheets` and
/// warnings `warnings`.
pub open spec fn workbook_matches(
    w: WorkbookFormatting,
    g: GlobalsModel,
    sheets: Seq<(Seq<char>, SheetModel)>,
    warnings: Seq<XlsWarning>,
) -> bool {
    &&& w.fonts@.len() == g.fonts.len()
    &&& forall|i: int| 0 <= i < g.fonts.len() ==> font_from(#[trigger] w.fonts@[i], g.fonts[i])
    &&& w.xfs@ == g.xfs
    &&& w.custom_formats@.dom() == g.formats.dom()
    &&& forall|k: u16| #[trigger] g.formats.contains_key(k) ==> w.custom_formats@[k]@ == g.formats[k]
    &&& w.palette@.len() == g.palette.len()
    &&& forall|i: int| 0 <= i < g.palette.len() ==> #[trigger] w.palette@[i]@ == g.palette[i]
    &&& w.sheets@.len() == sheets.len()
    &&& forall|i: int|
        0 <= i < sheets.len() ==> (#[trigger] w.sheets@[i]).name@ == sheets[i].0 && sheet_model(
            w.sheets@[i],
            sheets[i].1.warnings,
        ) == sheets[i].1
    &&& w.warnings@ == warnings
}

/// Whether the globals read so far match model `g`.
pub open spec fn globals_hold(
    fonts: Seq<XlsFont>,
    xfs: Seq<XlsXf>,
    formats: Map<u16, String>,
    palette: Seq<[u8; 3]>,
    infos: Seq<SheetInfo>,
    g: GlobalsModel,
) -> bool {
    &&& fonts.len() == g.fonts.len()
    &&& forall|i: int| 0 <= i < g.fonts.len() ==> font_from(#[trigger] fonts[i], g.fonts[i])
    &&& xfs == g.xfs
    &&& formats.dom() == g.formats.dom()
    &&& forall|k: u16| #[trigger] g.formats.contains_key(k) ==> formats[k]@ == g.formats[k]
    &&& palette.len() == g.palette.len()
    &&& forall|i: int| 0 <= i < g.palette.len() ==> #[trigger] palette[i]@ == g.palette[i]
    &&& infos.len() == g.sheets.len()
    &&& forall|i: int|
        0 <= i < infos.len() ==> (#[trigger] infos[i]).offset == g.sheets[i].0 && infos[i].name@ == g.sheets[i].1
            && infos[i].is_worksheet == g.sheets[i].2
}

/// Once the globals fold fails, reading more records keeps the failure.
proof fn lemma_globals_failed(recs: Seq<(u16, Seq<u8>)>, i: int, j: int, limits: XlsLimits)
    requires
        0 <= i <= j,
        globals_fold(recs, i, limits) is None,
    ensures
        globals_fold(recs, j, limits) is None,
    decreases j - i,
{
    if j > i {
        lemma_globals_failed(recs, i, j - 1, limits);
    }
}

/// Once the globals EOF is read, later records change nothing.
proof fn lemma_globals_ended(recs: Seq<(u16, Seq<u8>)>, i: int, j: int, limits: XlsLimits)
    requires
        0 <= i <= j,
        globals_fold(recs, i, limits) matches Some((_, ended)) && ended,
    ensures
        globals_fold(recs, j, limits) == globals_fold(recs, i, limits),
    decreases j - i,
{
    if j > i {
        lemma_globals_ended(recs, i, j - 1, limits);
    }
}

/// Once reading worksheets fails, reading more entries keeps the failure.
proof fn lemma_sheets_failed(
    data: Seq<u8>,
    list: Seq<(u16, int, int)>,
    infos: Seq<(u32, Seq<char>, bool)>,
    i: int,
    j: int,
    xfs_len: int,
    limits: XlsLimits,
)
    requires
        0 <= i <= j,
        sheets_fold(data, list, infos, i, xfs_len, limits) is None,
    ensures
        sheets_fold(data, list, infos, j, xfs_len, limits) is None,
    decreases j - i,
{
    if j > i {
        lemma_sheets_failed(data, list, infos, i, j - 1, xfs_len, limits);
    }
}

/// Reads the globals substream of a record list.
#[verifier::rlimit(60)]
#[verifier::spinoff_prover]
fn parse_globals(records: &Vec<Record>, limits: XlsLimits) -> (res: Result<
    (Vec<XlsFont>, Vec<XlsXf>, BTreeMap<u16, String>, Vec<[u8; 3]>, Vec<SheetInfo>),
    String,
>)
    ensures
        match globals_fold(records_view(records@), records@.len() as int, limits) {
            None => res is Err,
            Some((g, _)) => res matches Ok((fonts, xfs, formats, palette, infos)) && globals_hold(
                fonts@,
                xfs@,
                formats@,
                palette@,
                infos@,
                g,
            ),
        },
{
    let ghost recs = records_view(records@);
    let mut fonts: Vec<XlsFont> = Vec::new();
    let mut xfs: Vec<XlsXf> = Vec::new();
    let mut formats: BTreeMap<u16, String> = BTreeMap::new();
    let mut palette: Vec<[u8; 3]> = Vec::new();
    let mut infos: Vec<SheetInfo> = Vec::new();
    let ghost mut g = empty_globals();
    let mut ended = false;
    let mut index: usize = 0;
    while index < records.len() && !ended
        invariant
            index <= records@.len(),
            recs == records_view(records@),
            recs.len() == records@.len(),
            globals_fold(recs, index as int, limits) == Some((g, ended)),
            globals_hold(fonts@, xfs@, formats@, palette@, infos@, g),
        decreases records@.len() - index,
    {
        let record = records[index];
        let kind = record.kind;
        let data = record.data;
        assert(recs[index as int] == (kind, data@));
        if kind == EOF {
            ended = true;
        } else {
            let ghost before = g;
            let mut failed = false;
            if kind == FILEPASS {
                failed = true;
            } else if kind == BOUNDSHEET {
                if infos.len() >= limits.max_sheets {
                    failed = true;
                } else {
                    match parse_boundsheet(data) {
                        Ok(info) => {
                            infos.push(info);
                            proof {
                                g = GlobalsModel { sheets: g.sheets.push(boundsheet_outcome(data@)->Some_0), ..g };
                            }
                        },
                        Err(_) => {
                            failed = true;
                        },
                    }
                }
            } else if kind == FONT {
                if fonts.len() >= limits.max_fonts {
                    failed = true;
                } else {
                    match parse_font(data) {
                        Ok(font) => {
                            fonts.push(font);
                            proof {
                                g = GlobalsModel { fonts: g.fonts.push(data@), ..g };
                            }
                        },
                        Err(_) => {
                            failed = true;
                        },
                    }
                }
            } else if kind == FORMAT {
                if formats.len() >= limits.max_formats {
                    failed = true;
                } else {
                    match parse_format(data) {
                        Ok((id, code)) => {
                            formats.insert(id, code);
                            proof {
                                g = GlobalsModel { formats: g.formats.insert(id, format_outcome(data@)->Some_0.1), ..g };
                            }
                        },
                        Err(_) => {
                            failed = true;
                        },
                    }
                }
            } else if kind == XF {
                if xfs.len() >= limits.max_xfs {
                    failed = true;
                } else {
                    match parse_xf(data) {
                        Ok(xf) => {
                            xfs.push(xf);
                            proof {
                                g = GlobalsModel { xfs: g.xfs.push(xf_of(data@)), ..g };
                            }
                        },
                        Err(_) => {
                            failed = true;
                        },
                    }
                }
            } else if kind == PALETTE {
                match parse_palette(data) {
                    Ok(colors) => {
                        palette = colors;
                        proof {
                            g = GlobalsModel { palette: palette_outcome(data@)->Some_0, ..g };
                        }
                    },
                    Err(_) => {
                        failed = true;
                    },
                }
            }
            if failed {
                proof {
                    assert(globals_fold(recs, index as int + 1, limits) is None);
                    lemma_globals_failed(recs, index as int + 1, recs.len() as int, limits);
                }
                return Err(message("invalid XLS workbook globals record"));
            }
            assert(globals_step(before, kind, data@, limits) == Some(g));
        }
        index = index + 1;
    }
    proof {
        if ended {
            lemma_globals_ended(recs, index as int, recs.len() as int, limits);
        }
    }
    Ok((fonts, xfs, formats, palette, infos))
}

/// The position of the first record starting at byte `offset`.
fn find_record(records: &Vec<Record>, offset: usize, Ghost(list): Ghost<Seq<(u16, int, int)>>) -> (res: Option<usize>)
    requires
        records@.len() == list.len(),
        forall|i: int| 0 <= i < list.len() ==> #[trigger] records@[i].offset == list[i].1,
    ensures
        match record_at(list, offset as int, 0) {
            Some(i) => res matches Some(k) && k == i && k < records@.len(),
            None => res is None,
        },
{
    let mut i: usize = 0;
    while i < records.len()
        invariant
            i <= records@.len(),
            records@.len() == list.len(),
            forall|j: int| 0 <= j < list.len() ==> #[trigger] records@[j].offset == list[j].1,
            record_at(list, offset as int, 0) == record_at(list, offset as int, i as int),
        decreases records@.len() - i,
    {
        if records[i].offset == offset {
            return Some(i);
        }
        i = i + 1;
    }
    None
}

/// Reads a BIFF8 `Workbook` stream: its globals, then each worksheet the
/// sheet directory lists, found by its BOF offset.
#[verifier::rlimit(60)]
#[verifier::spinoff_prover]
pub fn parse_stream(data: &[u8], limits: XlsLimits) -> (res: Result<WorkbookFormatting, String>)
    ensures
        match workbook_result(data@, limits) {
            None => res is Err,
            Some((g, sheets, warnings)) => res matches Ok(w) && workbook_matches(w, g, sheets, warnings),
        },
{
    let records = records(data, limits.max_records)?;
    let ghost list = record_list(data@, 0, 0, limits.max_records as int)->Some_0;
    if records.len() == 0 {
        return Err(message("XLS Workbook stream is empty"));
    }
    let first = records[0];
    if first.kind != BOF || first.data.len() < 4 || read_u16_le(first.data, 0) != 0x0600 {
        return Err(message("only BIFF8 XLS workbooks are supported for formatting fidelity"));
    }
    assert(records_view(records@) =~= records_from(data@, list, 0));
    let (fonts, xfs, custom_formats, palette, infos) = parse_globals(&records, limits)?;
    let ghost g = globals_fold(records_from(data@, list, 0), list.len() as int, limits)->Some_0.0;
    let mut sheets: Vec<SheetFormatting> = Vec::new();
    let mut warnings: Vec<XlsWarning> = Vec::new();
    let ghost mut models: Seq<(Seq<char>, SheetModel)> = seq![];
    assert forall|i: int| 0 <= i < list.len() implies #[trigger] records@[i].offset == list[i].1 by {
        assert(records@[i].kind == list[i].0);
    }
    assert(workbook_result(data@, limits) == match sheets_fold(
        data@,
        list,
        g.sheets,
        g.sheets.len() as int,
        g.xfs.len() as int,
        limits,
    ) {
        None => None,
        Some((s, w)) => Some((g, s, w)),
    });
    let mut k: usize = 0;
    while k < infos.len()
        invariant
            workbook_result(data@, limits) == match sheets_fold(
                data@,
                list,
                g.sheets,
                g.sheets.len() as int,
                g.xfs.len() as int,
                limits,
            ) {
                None => None,
                Some((s, w)) => Some((g, s, w)),
            },
            records@.len() == list.len(),
            forall|i: int| 0 <= i < list.len() ==> #[trigger] records@[i].offset == list[i].1,
            k <= infos@.len(),
            infos@.len() == g.sheets.len(),
            forall|i: int|
                0 <= i < infos@.len() ==> (#[trigger] infos@[i]).offset == g.sheets[i].0 && infos@[i].name@
                    == g.sheets[i].1 && infos@[i].is_worksheet == g.sheets[i].2,
            records_match(records@, list, data@),
            xfs@ == g.xfs,
            sheets_fold(data@, list, g.sheets, k as int, g.xfs.len() as int, limits) == Some((models, warnings@)),
            sheets@.len() == models.len(),
            forall|i: int|
                0 <= i < models.len() ==> (#[trigger] sheets@[i]).name@ == models[i].0 && sheet_model(
                    sheets@[i],
                    models[i].1.warnings,
                ) == models[i].1,
        decreases infos@.len() - k,
    {
        let info = &infos[k];
        if info.is_worksheet {
            let start = match find_record(&records, info.offset as usize, Ghost(list)) {
                Some(i) => i,
                None => {
                    proof {
                        assert(sheets_fold(data@, list, g.sheets, k as int + 1, g.xfs.len() as int, limits) is None);
                        lemma_sheets_failed(data@, list, g.sheets, k as int + 1, g.sheets.len() as int, g.xfs.len() as int, limits);
                    }
                    return Err(message("worksheet BOF offset is invalid"));
                },
            };
            let tail = vstd::slice::slice_subrange(records.as_slice(), start, records.len());
            assert(records_view(tail@) =~= records_from(data@, list, start as int));
            let ghost before = warnings@;
            let sheet_index = sheets.len();
            let name = info.name.clone();
            match parse_sheet(tail, name, xfs.as_slice(), limits, sheet_index, &mut warnings) {
                Ok(sheet) => {
                    proof {
                        let m = sheet_result(records_from(data@, list, start as int), empty_sheet(before), g.xfs.len() as int, limits, sheet_index)->Some_0;
                        assert(m.warnings == warnings@) by {
                            assert(sheet_model(sheet, warnings@).warnings == warnings@);
                        }
                        models = models.push((g.sheets[k as int].1, m));
                    }
                    sheets.push(sheet);
                },
                Err(e) => {
                    proof {
                        assert(sheets_fold(data@, list, g.sheets, k as int + 1, g.xfs.len() as int, limits) is None);
                        lemma_sheets_failed(data@, list, g.sheets, k as int + 1, g.sheets.len() as int, g.xfs.len() as int, limits);
                    }
                    return Err(e);
                },
            }
        }
        k = k + 1;
    }
    Ok(WorkbookFormatting { fonts, xfs, custom_formats, palette, sheets, warnings })
}

/// `Workbook`, the BIFF8 workbook stream name.
pub open spec fn workbook_name() -> Seq<char> {
    seq!['W', 'o', 'r', 'k', 'b', 'o', 'o', 'k']
}

/// `Book`, the older workbook stream name.
pub open spec fn book_name() -> Seq<char> {
    seq!['B', 'o', 'o', 'k']
}

/// The workbook stream of compound file `data`: `Workbook`, else `Book`,
/// within the stream budget; `None` when the container, the stream or the
/// budget fails.
pub open spec fn workbook_stream(data: Seq<u8>, limits: XlsLimits) -> Option<Seq<u8>> {
    if !compound_opens(data) {
        None
    } else {
        let name = if compound_has_stream(data, workbook_name()) {
            Some(workbook_name())
        } else if compound_has_stream(data, book_name()) {
            Some(book_name())
        } else {
            None
        };
        match name {
            None => None,
            Some(n) => match compound_stream(data, n) {
                None => None,
                Some(stream) => if stream.len() > limits.max_stream_bytes {
                    None
                } else {
                    Some(stream)
                },
            },
        }
    }
}

impl WorkbookFormatting {
    /// Reads the formatting of an XLS compound file.
    pub fn from_xls(data: &[u8], limits: XlsLimits) -> (res: Result<Self, String>)
        ensures
            match workbook_stream(data@, limits) {
                None => res is Err,
                Some(stream) => match workbook_result(stream, limits) {
                    None => res is Err,
                    Some((g, sheets, warnings)) => res matches Ok(w) && workbook_matches(w, g, sheets, warnings),
                },
            },
    {
        let mut file = match CompoundFile::open(data) {
            Ok(file) => file,
            Err(_) => {
                return Err(message("XLS container parse failed"));
            },
        };
        proof {
            reveal_strlit("Workbook");
            reveal_strlit("Book");
        }
        assert("Workbook"@ =~= workbook_name());
        assert("Book"@ =~= book_name());
        let stream = if file.has_stream("Workbook") {
            file.read_stream("Workbook")
        } else if file.has_stream("Book") {
            file.read_stream("Book")
        } else {
            return Err(message("XLS is missing the Workbook/Book stream"));
        };
        let stream = match stream {
            Some(bytes) => bytes,
            None => {
                return Err(message("XLS workbook stream read failed"));
            },
        };
        if stream.len() > limits.max_stream_bytes {
            return Err(message("XLS Workbook stream exceeds limit"));
        }
        parse_stream(stream.as_slice(), limits)
    }
}

} // verus!

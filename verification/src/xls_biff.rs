//! Bounded extraction of visual BIFF8 workbook metadata: the record stream,
//! sheet directory, fonts, number formats, palette, XF records, grid
//! geometry, merged ranges and hyperlinks.

use vstd::prelude::*;

use crate::binary::{le_u16, le_u32, read_u16_le, read_u32_le};
use crate::error::message;
use crate::format::{ascii_lower, lower_ascii};
use crate::text::{char_from_u32, chars_of, decode_utf16, decode_utf16_lossy, push_char, utf16_lossy, utf16_strict};

verus! {

/// Beginning-of-substream record.
pub const BOF: u16 = 0x0809;
/// End-of-substream record.
pub const EOF: u16 = 0x000A;
/// Sheet directory entry.
pub const BOUNDSHEET: u16 = 0x0085;
/// Font record.
pub const FONT: u16 = 0x0031;
/// Number format record.
pub const FORMAT: u16 = 0x041E;
/// Extended format record.
pub const XF: u16 = 0x00E0;
/// Custom palette record.
pub const PALETTE: u16 = 0x0092;
/// Used-range record.
pub const DIMENSIONS: u16 = 0x0200;
/// Default column width in characters.
pub const DEFCOLWIDTH: u16 = 0x0055;
/// Default column width in 1/256 characters.
pub const STANDARDWIDTH: u16 = 0x0099;
/// Default row height record.
pub const DEFAULTROWHEIGHT: u16 = 0x0225;
/// Column band record.
pub const COLINFO: u16 = 0x007D;
/// Row record.
pub const ROW: u16 = 0x0208;
/// Merged ranges record.
pub const MERGEDCELLS: u16 = 0x00E5;
/// Hyperlink record.
pub const HLINK: u16 = 0x01B8;
/// Shared-string cell.
pub const LABELSST: u16 = 0x00FD;
/// Inline string cell.
pub const LABEL: u16 = 0x0204;
/// Rich string cell.
pub const RSTRING: u16 = 0x00D6;
/// IEEE number cell.
pub const NUMBER: u16 = 0x0203;
/// RK number cell.
pub const RK: u16 = 0x027E;
/// Several RK cells in a row.
pub const MULRK: u16 = 0x00BD;
/// Boolean or error cell.
pub const BOOLERR: u16 = 0x0205;
/// Formula cell.
pub const FORMULA: u16 = 0x0006;
/// Empty formatted cell.
pub const BLANK: u16 = 0x0201;
/// Several empty formatted cells in a row.
pub const MULBLANK: u16 = 0x00BE;
/// Encryption record.
pub const FILEPASS: u16 = 0x002F;

/// Resource budget for workbook parsing.
#[derive(Debug, Clone, Copy, PartialEq, Eq, Structural)]
pub struct XlsLimits {
    pub max_stream_bytes: usize,
    pub max_records: usize,
    pub max_sheets: usize,
    pub max_fonts: usize,
    pub max_xfs: usize,
    pub max_formats: usize,
    pub max_cells: usize,
    pub max_ranges: usize,
    pub max_hyperlinks: usize,
}

impl XlsLimits {
    /// The default budget.
    pub open spec fn spec_default() -> XlsLimits {
        XlsLimits {
            max_stream_bytes: 67108864,
            max_records: 500000,
            max_sheets: 256,
            max_fonts: 1024,
            max_xfs: 4096,
            max_formats: 1024,
            max_cells: 2000000,
            max_ranges: 65536,
            max_hyperlinks: 65536,
        }
    }
}

impl Default for XlsLimits {
    fn default() -> (res: Self)
        ensures
            res == XlsLimits::spec_default(),
    {
        XlsLimits {
            max_stream_bytes: 67108864,
            max_records: 500000,
            max_sheets: 256,
            max_fonts: 1024,
            max_xfs: 4096,
            max_formats: 1024,
            max_cells: 2000000,
            max_ranges: 65536,
            max_hyperlinks: 65536,
        }
    }
}

/// One BIFF record: its type, payload and byte offset in the stream.
#[derive(Clone, Copy)]
pub struct Record<'a> {
    pub kind: u16,
    pub data: &'a [u8],
    pub offset: usize,
}

/// Whether every byte of `data` from `offset` on is zero.
pub open spec fn zero_tail(data: Seq<u8>, offset: int) -> bool {
    forall|i: int| offset <= i < data.len() ==> data[i] == 0
}

/// The records of `data` from byte `offset` on, as (type, offset, end),
/// when `count` records precede them and at most `limit` are allowed:
/// `None` for a truncated record or too many records. Fewer than four
/// trailing zero bytes are padding.
pub open spec fn record_list(data: Seq<u8>, offset: int, count: int, limit: int) -> Option<Seq<(u16, int, int)>>
    decreases data.len() - offset,
{
    if offset < 0 || offset >= data.len() {
        Some(seq![])
    } else if data.len() - offset < 4 && zero_tail(data, offset) {
        Some(seq![])
    } else if count >= limit || data.len() - offset < 4 {
        None
    } else {
        let end = offset + 4 + le_u16(data, offset + 2);
        if end > data.len() {
            None
        } else {
            match record_list(data, end, count + 1, limit) {
                None => None,
                Some(rest) => Some(seq![(le_u16(data, offset), offset, end)] + rest),
            }
        }
    }
}

/// Whether `records` are the records listed by `list` over `data`.
pub open spec fn records_match(records: Seq<Record>, list: Seq<(u16, int, int)>, data: Seq<u8>) -> bool {
    &&& records.len() == list.len()
    &&& forall|i: int|
        0 <= i < list.len() ==> {
            &&& #[trigger] records[i].kind == list[i].0
            &&& records[i].offset == list[i].1
            &&& records[i].data@ == data.subrange(list[i].1 + 4, list[i].2)
        }
}

/// Splits a BIFF stream into records, at most `limit` of them.
pub fn records(data: &[u8], limit: usize) -> (res: Result<Vec<Record<'_>>, String>)
    ensures
        match record_list(data@, 0, 0, limit as int) {
            None => res is Err,
            Some(list) => res matches Ok(v) && records_match(v@, list, data@),
        },
{
    let mut result: Vec<Record> = Vec::new();
    let ghost mut done: Seq<(u16, int, int)> = seq![];
    let mut offset: usize = 0;
    let len = data.len();
    while offset < len
        invariant
            len == data@.len(),
            offset <= len,
            records_match(result@, done, data@),
            record_list(data@, 0, 0, limit as int) == match record_list(
                data@,
                offset as int,
                result@.len() as int,
                limit as int,
            ) {
                None => None,
                Some(rest) => Some(done + rest),
            },
        decreases len - offset,
    {
        if len - offset < 4 {
            let mut all_zero = true;
            let mut k = offset;
            while k < len
                invariant
                    offset <= k <= len,
                    len == data@.len(),
                    all_zero <==> (forall|i: int| offset <= i < k ==> data@[i] == 0),
                decreases len - k,
            {
                if data[k] != 0 {
                    all_zero = false;
                }
                k = k + 1;
            }
            if all_zero {
                assert(zero_tail(data@, offset as int));
                assert(done + seq![] =~= done);
                return Ok(result);
            }
        }
        if result.len() >= limit {
            return Err(message("XLS record limit exceeded"));
        }
        if len - offset < 4 {
            return Err(message("truncated XLS record header"));
        }
        let kind = read_u16_le(data, offset);
        let length = read_u16_le(data, offset + 2) as usize;
        if length > len - offset - 4 {
            return Err(message("truncated XLS record"));
        }
        let end = offset + 4 + length;
        let ghost entry = (kind, offset as int, end as int);
        result.push(Record { kind, data: vstd::slice::slice_subrange(data, offset + 4, end), offset });
        proof {
            assert(done.push(entry) + record_list(data@, end as int, result@.len() as int, limit as int)->Some_0
                =~= done + (seq![entry] + record_list(data@, end as int, result@.len() as int, limit as int)->Some_0));
            done = done.push(entry);
        }
        offset = end;
    }
    Ok(result)
}

/// The little-endian code units stored in `b`, two bytes each.
pub open spec fn units_of(b: Seq<u8>) -> Seq<u16> {
    Seq::new((b.len() / 2) as nat, |i: int| le_u16(b, 2 * i))
}

/// The characters of a BIFF string of `count` characters at `offset`:
/// UTF-16 when `unicode`, else one byte per character holding the low byte
/// of its code unit; `None` when it does not fit or is ill-formed UTF-16.
pub open spec fn xl_chars(data: Seq<u8>, offset: int, count: int, unicode: bool) -> Option<Seq<char>> {
    let width: int = if unicode {
        2
    } else {
        1
    };
    let end = offset + count * width;
    if end > data.len() {
        None
    } else if unicode {
        utf16_strict(units_of(data.subrange(offset, end)))
    } else {
        Some(Seq::new(count as nat, |i: int| (data[offset + i] as u32) as char))
    }
}

/// Reads a BIFF string of `count` characters at `offset`.
pub fn parse_xl_chars(data: &[u8], offset: usize, count: usize, unicode: bool) -> (res: Result<String, String>)
    ensures
        match xl_chars(data@, offset as int, count as int, unicode) {
            Some(text) => res matches Ok(s) && s@ == text,
            None => res is Err,
        },
{
    let len = data.len();
    let width: usize = if unicode {
        2
    } else {
        1
    };
    if count > usize::MAX / width {
        assert(count * width > usize::MAX) by (nonlinear_arith)
            requires
                count > usize::MAX / width,
                width > 0,
        ;
        return Err(message("XLS string length overflow"));
    }
    assert(count * width <= usize::MAX) by (nonlinear_arith)
        requires
            count <= usize::MAX / width,
            width > 0,
    ;
    let byte_count = count * width;
    if offset > usize::MAX - byte_count {
        return Err(message("XLS string end overflow"));
    }
    let end = offset + byte_count;
    if end > len {
        return Err(message("truncated XLS string"));
    }
    if unicode {
        let ghost bytes = data@.subrange(offset as int, end as int);
        let mut units: Vec<u16> = Vec::new();
        let mut i: usize = 0;
        while i < count
            invariant
                byte_count == count * 2,
                end == offset + byte_count,
                end <= data@.len(),
                bytes == data@.subrange(offset as int, end as int),
                i <= count,
                units@ =~= units_of(bytes).take(i as int),
            decreases count - i,
        {
            units.push(read_u16_le(data, offset + 2 * i));
            i = i + 1;
        }
        assert(units@ =~= units_of(bytes));
        match decode_utf16(units.as_slice()) {
            Some(text) => Ok(text),
            None => Err(message("invalid UTF-16 in XLS string")),
        }
    } else {
        let mut text = String::new();
        let mut i: usize = 0;
        while i < count
            invariant
                byte_count == count,
                end == offset + byte_count,
                end <= data@.len(),
                i <= count,
                text@ =~= Seq::new(i as nat, |k: int| (data@[offset + k] as u32) as char),
            decreases count - i,
        {
            match char_from_u32(data[offset + i] as u32) {
                Some(c) => push_char(&mut text, c),
                None => {
                    return Err(message("invalid XLS character"));
                },
            }
            i = i + 1;
        }
        Ok(text)
    }
}

/// A sheet directory entry.
#[derive(Debug)]
pub struct SheetInfo {
    pub offset: u32,
    pub name: String,
    pub is_worksheet: bool,
}

/// Parses a BOUNDSHEET record: stream offset, type and name.
pub fn parse_boundsheet(data: &[u8]) -> (res: Result<SheetInfo, String>)
    ensures
        data@.len() < 8 ==> res is Err,
        data@.len() >= 8 ==> match xl_chars(data@, 8, data@[6] as int, data@[7] & 1 != 0) {
            None => res is Err,
            Some(name) => res matches Ok(info) && info.name@ == name && info.offset == le_u32(data@, 0)
                && info.is_worksheet == (data@[5] == 0),
        },
{
    if data.len() < 8 {
        return Err(message("truncated BOUNDSHEET record"));
    }
    let offset = read_u32_le(data, 0);
    let name_len = data[6] as usize;
    let options = data[7];
    let name = parse_xl_chars(data, 8, name_len, options & 1 != 0)?;
    Ok(SheetInfo { offset, name, is_worksheet: data[5] == 0 })
}

/// A FONT record.
#[derive(Debug, Clone, PartialEq, Eq)]
pub struct XlsFont {
    pub name: String,
    pub height_twips: u16,
    pub color_index: u16,
    pub weight: u16,
    pub italic: bool,
    pub strike: bool,
    pub underline: u8,
    pub family: u8,
    pub charset: u8,
}

/// Whether `font` holds the fields of FONT record `d` with name `name`.
pub open spec fn font_fields(font: XlsFont, d: Seq<u8>, name: Seq<char>) -> bool {
    let options = le_u16(d, 2);
    &&& font.name@ == name
    &&& font.height_twips == le_u16(d, 0)
    &&& font.color_index == le_u16(d, 4)
    &&& font.weight == le_u16(d, 6)
    &&& font.italic == (options & 0x0002 != 0)
    &&& font.strike == (options & 0x0008 != 0)
    &&& font.underline == d[10]
    &&& font.family == d[11]
    &&& font.charset == d[12]
}

/// Parses a FONT record.
pub fn parse_font(data: &[u8]) -> (res: Result<XlsFont, String>)
    ensures
        data@.len() < 16 ==> res is Err,
        data@.len() >= 16 ==> match xl_chars(data@, 16, data@[14] as int, data@[15] & 1 != 0) {
            None => res is Err,
            Some(name) => res matches Ok(font) && font_fields(font, data@, name),
        },
{
    if data.len() < 16 {
        return Err(message("truncated FONT record"));
    }
    let options = read_u16_le(data, 2);
    let name_len = data[14] as usize;
    let unicode = data[15] & 1 != 0;
    let name = parse_xl_chars(data, 16, name_len, unicode)?;
    Ok(
        XlsFont {
            name,
            height_twips: read_u16_le(data, 0),
            color_index: read_u16_le(data, 4),
            weight: read_u16_le(data, 6),
            italic: options & 0x0002 != 0,
            strike: options & 0x0008 != 0,
            underline: data[10],
            family: data[11],
            charset: data[12],
        },
    )
}

/// Where the characters of FORMAT record `d` start: after the optional
/// rich-text run count and extension size.
pub open spec fn format_chars_offset(d: Seq<u8>) -> int {
    5 + (if d[4] & 0x08 != 0 {
        2int
    } else {
        0
    }) + (if d[4] & 0x04 != 0 {
        4int
    } else {
        0
    })
}

/// Parses a FORMAT record: the format id and its code.
pub fn parse_format(data: &[u8]) -> (res: Result<(u16, String), String>)
    ensures
        data@.len() < 5 ==> res is Err,
        data@.len() >= 5 ==> match xl_chars(
            data@,
            format_chars_offset(data@),
            le_u16(data@, 2) as int,
            data@[4] & 1 != 0,
        ) {
            None => res is Err,
            Some(code) => res matches Ok((id, s)) && id == le_u16(data@, 0) && s@ == code,
        },
{
    if data.len() < 5 {
        return Err(message("truncated FORMAT record"));
    }
    let format_id = read_u16_le(data, 0);
    let char_count = read_u16_le(data, 2) as usize;
    let options = data[4];
    let rich_bytes: usize = if options & 0x08 != 0 {
        2
    } else {
        0
    };
    let extension_bytes: usize = if options & 0x04 != 0 {
        4
    } else {
        0
    };
    let value = parse_xl_chars(data, 5 + rich_bytes + extension_bytes, char_count, options & 1 != 0)?;
    Ok((format_id, value))
}

/// The colors of a PALETTE record holding `count` entries.
pub open spec fn palette_colors(d: Seq<u8>, count: int) -> Seq<Seq<u8>> {
    Seq::new(count as nat, |i: int| seq![d[2 + 4 * i], d[3 + 4 * i], d[4 + 4 * i]])
}

/// Parses a PALETTE record: at most 56 RGB entries.
pub fn parse_palette(data: &[u8]) -> (res: Result<Vec<[u8; 3]>, String>)
    ensures
        data@.len() < 2 ==> res is Err,
        data@.len() >= 2 ==> {
            let count = le_u16(data@, 0) as int;
            if count > 56 || data@.len() < count * 4 + 2 {
                res is Err
            } else {
                res matches Ok(v) && v@.len() == count && forall|i: int|
                    0 <= i < count ==> #[trigger] v@[i]@ == palette_colors(data@, count)[i]
            }
        },
{
    if data.len() < 2 {
        return Err(message("truncated u16"));
    }
    let count = read_u16_le(data, 0) as usize;
    if count > 56 {
        return Err(message("invalid XLS palette size"));
    }
    if data.len() < count * 4 + 2 {
        return Err(message("truncated PALETTE record"));
    }
    let mut colors: Vec<[u8; 3]> = Vec::new();
    let mut index: usize = 0;
    while index < count
        invariant
            count <= 56,
            count == le_u16(data@, 0),
            data@.len() >= count * 4 + 2,
            index <= count,
            colors@.len() == index,
            forall|i: int| 0 <= i < index ==> #[trigger] colors@[i]@ == palette_colors(data@, count as int)[i],
        decreases count - index,
    {
        let offset = 2 + index * 4;
        let rgb = [data[offset], data[offset + 1], data[offset + 2]];
        assert(rgb@ =~= palette_colors(data@, count as int)[index as int]);
        colors.push(rgb);
        index = index + 1;
    }
    Ok(colors)
}

/// Border styles and colors of an XF record.
#[derive(Debug, Clone, Copy, PartialEq, Eq, Hash, Structural)]
pub struct XlsBorder {
    pub left_style: u8,
    pub right_style: u8,
    pub top_style: u8,
    pub bottom_style: u8,
    pub left_color: u8,
    pub right_color: u8,
    pub top_color: u8,
    pub bottom_color: u8,
}

/// Fill pattern and colors of an XF record.
#[derive(Debug, Clone, Copy, PartialEq, Eq, Hash, Structural)]
pub struct XlsFill {
    pub pattern: u8,
    pub foreground: u8,
    pub background: u8,
}

/// An extended format (cell or style XF).
#[derive(Debug, Clone, Copy, PartialEq, Eq, Structural)]
pub struct XlsXf {
    pub font_index: u16,
    pub format_index: u16,
    pub parent_style: u16,
    pub is_style: bool,
    pub used_attributes: u8,
    pub horizontal: u8,
    pub vertical: u8,
    pub wrap: bool,
    pub rotation: u8,
    pub indent: u8,
    pub shrink_to_fit: bool,
    pub reading_order: u8,
    pub border: XlsBorder,
    pub fill: XlsFill,
}

/// The XF that a 20-byte XF record `d` stores.
pub open spec fn xf_of(d: Seq<u8>) -> XlsXf {
    let protection = le_u16(d, 4);
    let align = d[6];
    let misc = d[8];
    let border1 = le_u32(d, 10);
    let border2 = le_u32(d, 14);
    let colors = le_u16(d, 18);
    XlsXf {
        font_index: le_u16(d, 0),
        format_index: le_u16(d, 2),
        parent_style: protection >> 4,
        is_style: protection & 0x0004 != 0,
        used_attributes: d[9],
        horizontal: align & 0x07,
        wrap: align & 0x08 != 0,
        vertical: (align >> 4) & 0x07,
        rotation: d[7],
        indent: misc & 0x0F,
        shrink_to_fit: misc & 0x10 != 0,
        reading_order: (misc >> 6) & 0x03,
        border: XlsBorder {
            left_style: (border1 & 0x0F) as u8,
            right_style: ((border1 >> 4) & 0x0F) as u8,
            top_style: ((border1 >> 8) & 0x0F) as u8,
            bottom_style: ((border1 >> 12) & 0x0F) as u8,
            left_color: ((border1 >> 16) & 0x7F) as u8,
            right_color: ((border1 >> 23) & 0x7F) as u8,
            top_color: (border2 & 0x7F) as u8,
            bottom_color: ((border2 >> 7) & 0x7F) as u8,
        },
        fill: XlsFill {
            pattern: ((border2 >> 26) & 0x3F) as u8,
            foreground: (colors & 0x7F) as u8,
            background: ((colors >> 7) & 0x7F) as u8,
        },
    }
}

/// Parses an XF record, which is exactly 20 bytes.
pub fn parse_xf(data: &[u8]) -> (res: Result<XlsXf, String>)
    ensures
        data@.len() != 20 ==> res is Err,
        data@.len() == 20 ==> res == Ok::<XlsXf, String>(xf_of(data@)),
{
    if data.len() != 20 {
        return Err(message("invalid XF record length; expected 20"));
    }
    let protection = read_u16_le(data, 4);
    let align = data[6];
    let misc = data[8];
    let border1 = read_u32_le(data, 10);
    let border2 = read_u32_le(data, 14);
    let colors = read_u16_le(data, 18);
    Ok(
        XlsXf {
            font_index: read_u16_le(data, 0),
            format_index: read_u16_le(data, 2),
            parent_style: protection >> 4,
            is_style: protection & 0x0004 != 0,
            used_attributes: data[9],
            horizontal: align & 0x07,
            wrap: align & 0x08 != 0,
            vertical: (align >> 4) & 0x07,
            rotation: data[7],
            indent: misc & 0x0F,
            shrink_to_fit: misc & 0x10 != 0,
            reading_order: (misc >> 6) & 0x03,
            border: XlsBorder {
                left_style: (border1 & 0x0F) as u8,
                right_style: ((border1 >> 4) & 0x0F) as u8,
                top_style: ((border1 >> 8) & 0x0F) as u8,
                bottom_style: ((border1 >> 12) & 0x0F) as u8,
                left_color: ((border1 >> 16) & 0x7F) as u8,
                right_color: ((border1 >> 23) & 0x7F) as u8,
                top_color: (border2 & 0x7F) as u8,
                bottom_color: ((border2 >> 7) & 0x7F) as u8,
            },
            fill: XlsFill {
                pattern: ((border2 >> 26) & 0x3F) as u8,
                foreground: (colors & 0x7F) as u8,
                background: ((colors >> 7) & 0x7F) as u8,
            },
        },
    )
}

/// A rectangular cell range, both ends inclusive.
#[derive(Debug, Clone, Copy, PartialEq, Eq, Structural)]
pub struct CellRange {
    pub first_row: u16,
    pub last_row: u16,
    pub first_col: u16,
    pub last_col: u16,
}

/// The `Ref8` range stored in the first eight bytes of `d`.
pub open spec fn range_of(d: Seq<u8>) -> CellRange {
    CellRange {
        first_row: le_u16(d, 0),
        last_row: le_u16(d, 2),
        first_col: le_u16(d, 4),
        last_col: le_u16(d, 6),
    }
}

/// Reads a `Ref8` range.
pub fn parse_range(data: &[u8]) -> (res: Option<CellRange>)
    ensures
        data@.len() < 8 ==> res is None,
        data@.len() >= 8 ==> res == Some(range_of(data@)),
{
    if data.len() < 8 {
        return None;
    }
    Some(
        CellRange {
            first_row: read_u16_le(data, 0),
            last_row: read_u16_le(data, 2),
            first_col: read_u16_le(data, 4),
            last_col: read_u16_le(data, 6),
        },
    )
}

/// Whether a range is ordered and inside the 256-column BIFF8 grid.
pub open spec fn range_valid(r: CellRange) -> bool {
    r.first_row <= r.last_row && r.first_col <= r.last_col && r.last_col < 256
}

/// Rejects a range that is reversed or leaves the BIFF8 grid.
pub fn validate_range(range: CellRange) -> (res: Result<(), String>)
    ensures
        res is Ok <==> range_valid(range),
{
    if range.first_row > range.last_row || range.first_col > range.last_col || range.last_col >= 256 {
        return Err(message("range exceeds BIFF8 grid"));
    }
    Ok(())
}

/// What a DIMENSIONS record `d` yields: the used range, none for an empty
/// one, or `None` when it is truncated or leaves the BIFF8 grid.
pub open spec fn dimensions_outcome(d: Seq<u8>) -> Option<Option<CellRange>> {
    if d.len() < 14 {
        None
    } else {
        let first_row = le_u32(d, 0);
        let row_after = le_u32(d, 4);
        let first_col = le_u16(d, 8);
        let col_after = le_u16(d, 10);
        if row_after <= first_row || col_after <= first_col {
            Some(None)
        } else if row_after > 65536 || col_after > 256 {
            None
        } else {
            Some(
                Some(
                    CellRange {
                        first_row: first_row as u16,
                        last_row: (row_after - 1) as u16,
                        first_col,
                        last_col: (col_after - 1) as u16,
                    },
                ),
            )
        }
    }
}

/// Parses a DIMENSIONS record: the used range, or none when it is empty.
pub fn parse_dimensions(data: &[u8]) -> (res: Result<Option<CellRange>, String>)
    ensures
        match dimensions_outcome(data@) {
            Some(r) => res == Ok::<Option<CellRange>, String>(r),
            None => res is Err,
        },
{
    if data.len() < 14 {
        return Err(message("truncated DIMENSIONS record"));
    }
    let first_row = read_u32_le(data, 0);
    let row_after = read_u32_le(data, 4);
    let first_col = read_u16_le(data, 8);
    let col_after = read_u16_le(data, 10);
    if row_after <= first_row || col_after <= first_col {
        return Ok(None);
    }
    if row_after > 65536 || col_after > 256 {
        return Err(message("DIMENSIONS exceeds BIFF8 grid"));
    }
    Ok(
        Some(
            CellRange {
                first_row: first_row as u16,
                last_row: (row_after - 1) as u16,
                first_col,
                last_col: col_after - 1,
            },
        ),
    )
}

/// A COLINFO column band. The width is kept as stored, in 1/256 of a
/// character.
#[derive(Debug, Clone, Copy, PartialEq, Eq, Structural)]
pub struct ColumnBand {
    pub first: u16,
    pub last: u16,
    pub width_units: u16,
    pub hidden: bool,
    pub xf: u16,
}

/// What a COLINFO record `d` yields: its band, none for a band past the
/// last BIFF8 column, or `None` when it is truncated or reversed.
pub open spec fn colinfo_outcome(d: Seq<u8>) -> Option<Option<ColumnBand>> {
    if d.len() < 12 {
        None
    } else {
        let first = le_u16(d, 0);
        let last = le_u16(d, 2);
        if first > last {
            None
        } else if first >= 256 {
            Some(None)
        } else {
            Some(
                Some(
                    ColumnBand {
                        first,
                        last: if last < 255 {
                            last
                        } else {
                            255
                        },
                        width_units: le_u16(d, 4),
                        hidden: le_u16(d, 8) & 1 != 0,
                        xf: le_u16(d, 6),
                    },
                ),
            )
        }
    }
}

/// Parses a COLINFO record; a band starting past the last BIFF8 column is
/// dropped and a band's end is clamped to it.
pub fn parse_colinfo(data: &[u8]) -> (res: Result<Option<ColumnBand>, String>)
    ensures
        match colinfo_outcome(data@) {
            Some(r) => res == Ok::<Option<ColumnBand>, String>(r),
            None => res is Err,
        },
{
    if data.len() < 12 {
        return Err(message("truncated COLINFO record"));
    }
    let first = read_u16_le(data, 0);
    let last = read_u16_le(data, 2);
    if first > last {
        return Err(message("invalid COLINFO range"));
    }
    if first >= 256 {
        return Ok(None);
    }
    let options = read_u16_le(data, 8);
    Ok(
        Some(
            ColumnBand {
                first,
                last: if last < 255 {
                    last
                } else {
                    255
                },
                width_units: read_u16_le(data, 4),
                hidden: options & 1 != 0,
                xf: read_u16_le(data, 6),
            },
        ),
    )
}

/// Height, visibility and style of one row.
#[derive(Debug, Clone, Copy, PartialEq, Eq, Structural)]
pub struct RowLayout {
    pub height_twips: u16,
    pub hidden: bool,
    pub custom_height: bool,
    pub xf: Option<u16>,
}

/// The row index and layout a ROW record `d` stores.
pub open spec fn row_of(d: Seq<u8>) -> (u16, RowLayout) {
    let raw_height = le_u16(d, 6);
    let options = le_u32(d, 12);
    (
        le_u16(d, 0),
        RowLayout {
            height_twips: raw_height & 0x7FFF,
            hidden: options & 0x0020 != 0,
            custom_height: raw_height & 0x8000 != 0 || options & 0x0040 != 0,
            xf: if options & 0x0080 != 0 {
                Some(((options >> 16) & 0x0FFF) as u16)
            } else {
                None
            },
        },
    )
}

/// Parses a ROW record.
pub fn parse_row(data: &[u8]) -> (res: Result<(u16, RowLayout), String>)
    ensures
        data@.len() < 16 ==> res is Err,
        data@.len() >= 16 ==> res == Ok::<(u16, RowLayout), String>(row_of(data@)),
{
    if data.len() < 16 {
        return Err(message("truncated ROW record"));
    }
    let row = read_u16_le(data, 0);
    let raw_height = read_u16_le(data, 6);
    let options = read_u32_le(data, 12);
    let formatted = options & 0x0080 != 0;
    Ok(
        (
            row,
            RowLayout {
                height_twips: raw_height & 0x7FFF,
                hidden: options & 0x0020 != 0,
                custom_height: raw_height & 0x8000 != 0 || options & 0x0040 != 0,
                xf: if formatted {
                    Some(((options >> 16) & 0x0FFF) as u16)
                } else {
                    None
                },
            },
        ),
    )
}

/// The `count` ranges of a MERGEDCELLS record.
pub open spec fn merge_ranges(d: Seq<u8>, count: int) -> Seq<CellRange> {
    Seq::new(count as nat, |i: int| range_of(d.subrange(2 + 8 * i, 10 + 8 * i)))
}

/// How many leading ranges of `rs` are valid.
pub open spec fn valid_prefix(rs: Seq<CellRange>) -> int
    decreases rs.len(),
{
    if rs.len() == 0 {
        0
    } else if !range_valid(rs[0]) {
        0
    } else {
        1 + valid_prefix(rs.drop_first())
    }
}

/// Parses a MERGEDCELLS record into `target`, within `limit` ranges in all.
/// Ranges before the first invalid one are kept.
pub fn parse_merges(data: &[u8], target: &mut Vec<CellRange>, limit: usize) -> (res: Result<(), String>)
    ensures
        data@.len() < 2 ==> res is Err && final(target)@ == old(target)@,
        data@.len() >= 2 ==> {
            let count = le_u16(data@, 0) as int;
            if old(target)@.len() + count > limit || data@.len() < count * 8 + 2 {
                res is Err && final(target)@ == old(target)@
            } else {
                let ranges = merge_ranges(data@, count);
                let k = valid_prefix(ranges);
                &&& final(target)@ == old(target)@ + ranges.take(k)
                &&& (res is Ok <==> k == count)
            }
        },
{
    if data.len() < 2 {
        return Err(message("truncated u16"));
    }
    let count = read_u16_le(data, 0) as usize;
    if target.len() > limit || count > limit - target.len() {
        return Err(message("XLS merged range limit exceeded"));
    }
    if data.len() < count * 8 + 2 {
        return Err(message("truncated MERGEDCELLS record"));
    }
    let ghost ranges = merge_ranges(data@, count as int);
    let ghost start = target@;
    let mut index: usize = 0;
    while index < count
        invariant
            count == le_u16(data@, 0),
            data@.len() >= count * 8 + 2,
            ranges == merge_ranges(data@, count as int),
            start == old(target)@,
            start.len() + count <= limit,
            index <= count,
            forall|i: int| 0 <= i < index ==> range_valid(#[trigger] ranges[i]),
            target@ == start + ranges.take(index as int),
        decreases count - index,
    {
        let slice = vstd::slice::slice_subrange(data, 2 + index * 8, 2 + index * 8 + 8);
        let range = match parse_range(slice) {
            Some(r) => r,
            None => {
                return Err(message("invalid merged range"));
            },
        };
        assert(range == ranges[index as int]);
        if validate_range(range).is_err() {
            proof {
                lemma_valid_prefix_stops(ranges, index as int);
            }
            return Err(message("range exceeds BIFF8 grid"));
        }
        target.push(range);
        assert(ranges.take(index as int + 1) =~= ranges.take(index as int).push(range));
        index = index + 1;
    }
    proof {
        lemma_valid_prefix_all(ranges);
        assert(ranges.take(count as int) =~= ranges);
    }
    Ok(())
}

/// The valid prefix ends at the first invalid range.
proof fn lemma_valid_prefix_stops(rs: Seq<CellRange>, k: int)
    requires
        0 <= k < rs.len(),
        forall|i: int| 0 <= i < k ==> range_valid(#[trigger] rs[i]),
        !range_valid(rs[k]),
    ensures
        valid_prefix(rs) == k,
    decreases k,
{
    if k > 0 {
        assert forall|i: int| 0 <= i < k - 1 implies range_valid(#[trigger] rs.drop_first()[i]) by {
            assert(rs.drop_first()[i] == rs[i + 1]);
        }
        assert(rs.drop_first()[k - 1] == rs[k]);
        lemma_valid_prefix_stops(rs.drop_first(), k - 1);
    }
}

/// A sequence of valid ranges is its own valid prefix.
proof fn lemma_valid_prefix_all(rs: Seq<CellRange>)
    requires
        forall|i: int| 0 <= i < rs.len() ==> range_valid(#[trigger] rs[i]),
    ensures
        valid_prefix(rs) == rs.len(),
    decreases rs.len(),
{
    if rs.len() > 0 {
        assert(range_valid(rs[0]));
        assert forall|i: int| 0 <= i < rs.len() - 1 implies range_valid(#[trigger] rs.drop_first()[i]) by {
            assert(rs.drop_first()[i] == rs[i + 1]);
        }
        lemma_valid_prefix_all(rs.drop_first());
    }
}

/// Where a hyperlink points.
#[derive(Debug, Clone, PartialEq, Eq)]
pub enum HyperlinkTarget {
    External(String),
    Internal(String),
}

/// A hyperlink and the cells it covers.
#[derive(Debug, Clone, PartialEq, Eq)]
pub struct XlsHyperlink {
    pub range: CellRange,
    pub target: HyperlinkTarget,
}

/// Whether `c` is a control character (general category Cc).
pub open spec fn is_control_char(c: char) -> bool {
    (c as u32) <= 0x1F || (0x7F <= (c as u32) && (c as u32) <= 0x9F)
}

/// The first position from `i` before `e` that is not a control character.
pub open spec fn skip_control(s: Seq<char>, i: int, e: int) -> int
    decreases e - i,
{
    if i < e && is_control_char(s[i]) {
        skip_control(s, i + 1, e)
    } else {
        i
    }
}

/// The end of `s[i..e]` once trailing control characters are dropped.
pub open spec fn back_control(s: Seq<char>, i: int, e: int) -> int
    decreases e - i,
{
    if i < e && is_control_char(s[e - 1]) {
        back_control(s, i, e - 1)
    } else {
        e
    }
}

/// `s[i..e]` without leading and trailing control characters.
pub open spec fn trimmed(s: Seq<char>, i: int, e: int) -> Seq<char> {
    let a = skip_control(s, i, e);
    s.subrange(a, back_control(s, a, e))
}

/// The position of the first NUL at or after `i`, or the length.
pub open spec fn nul_from(t: Seq<char>, i: int) -> int
    decreases t.len() - i,
{
    if i < 0 || i >= t.len() {
        t.len() as int
    } else if t[i] == '\0' {
        i
    } else {
        nul_from(t, i + 1)
    }
}

/// The NUL found from `i` lies between `i` and the length.
pub proof fn lemma_nul_from_bounds(t: Seq<char>, i: int)
    requires
        0 <= i <= t.len(),
    ensures
        i <= nul_from(t, i) <= t.len(),
    decreases t.len() - i,
{
    if i < t.len() && t[i] != '\0' {
        lemma_nul_from_bounds(t, i + 1);
    }
}

/// Whether `p` occurs in `t` at position `i`.
pub open spec fn occurs_at(t: Seq<char>, p: Seq<char>, i: int) -> bool {
    0 <= i && i + p.len() <= t.len() && t.subrange(i, i + p.len()) == p
}

/// The first position from `i` at which `p` occurs in `t`.
pub open spec fn find_from(t: Seq<char>, p: Seq<char>, i: int) -> Option<int>
    decreases t.len() + 1 - i,
{
    if i < 0 || i + p.len() > t.len() {
        None
    } else if occurs_at(t, p, i) {
        Some(i)
    } else {
        find_from(t, p, i + 1)
    }
}

/// A position found from `j` is an occurrence at or after `j`.
pub proof fn lemma_find_from(t: Seq<char>, p: Seq<char>, j: int)
    requires
        find_from(t, p, j) is Some,
    ensures
        j <= find_from(t, p, j)->Some_0,
        occurs_at(t, p, find_from(t, p, j)->Some_0),
    decreases t.len() + 1 - j,
{
    if !(j < 0 || j + p.len() > t.len()) && !occurs_at(t, p, j) {
        lemma_find_from(t, p, j + 1);
    }
}

/// The external target found through scheme `p`: the text from the first
/// occurrence of `p` in the lowered text up to a NUL, trimmed of control
/// characters, when that is not empty.
pub open spec fn scheme_target(t: Seq<char>, lower: Seq<char>, p: Seq<char>) -> Option<Seq<char>> {
    match find_from(lower, p, 0) {
        None => None,
        Some(start) => {
            let target = trimmed(t, start, nul_from(t, start));
            if target.len() > 0 {
                Some(target)
            } else {
                None
            }
        },
    }
}

/// The recognised URL schemes, in the order they are tried.
pub open spec fn https_scheme() -> Seq<char> {
    seq!['h', 't', 't', 'p', 's', ':', '/', '/']
}

/// `http://`.
pub open spec fn http_scheme() -> Seq<char> {
    seq!['h', 't', 't', 'p', ':', '/', '/']
}

/// `mailto:`.
pub open spec fn mailto_scheme() -> Seq<char> {
    seq!['m', 'a', 'i', 'l', 't', 'o', ':']
}

/// `tel:`.
pub open spec fn tel_scheme() -> Seq<char> {
    seq!['t', 'e', 'l', ':']
}

/// The first external target over the schemes in order.
pub open spec fn external_target(t: Seq<char>, lower: Seq<char>) -> Option<Seq<char>> {
    if scheme_target(t, lower, https_scheme()) is Some {
        scheme_target(t, lower, https_scheme())
    } else if scheme_target(t, lower, http_scheme()) is Some {
        scheme_target(t, lower, http_scheme())
    } else if scheme_target(t, lower, mailto_scheme()) is Some {
        scheme_target(t, lower, mailto_scheme())
    } else {
        scheme_target(t, lower, tel_scheme())
    }
}

/// The first NUL-separated part from position `i` whose trimmed text
/// starts with `#`, without the `#`.
pub open spec fn internal_from(t: Seq<char>, i: int) -> Option<Seq<char>>
    decreases t.len() - i,
{
    if i < 0 || i >= t.len() {
        None
    } else {
        let e = nul_from(t, i);
        let part = trimmed(t, i, e);
        if part.len() > 0 && part[0] == '#' {
            Some(part.drop_first())
        } else if e >= t.len() {
            None
        } else {
            proof {
                lemma_nul_from_bounds(t, i);
            }
            internal_from(t, e + 1)
        }
    }
}

/// The text of an HLINK record: its UTF-16 units after the range.
pub open spec fn hlink_text(d: Seq<u8>) -> Seq<char> {
    utf16_lossy(units_of(d.subrange(8, d.len() as int)))
}

/// The target an HLINK record yields, `true` for external: none when the
/// range is invalid, the record is short, or no target is unambiguous.
pub open spec fn hlink_target(d: Seq<u8>) -> Option<(bool, Seq<char>)> {
    if d.len() < 36 || !range_valid(range_of(d)) {
        None
    } else {
        let t = hlink_text(d);
        match external_target(t, ascii_lower(t)) {
            Some(x) => Some((true, x)),
            None => match internal_from(t, 0) {
                Some(x) => Some((false, x)),
                None => None,
            },
        }
    }
}

/// Finds the first occurrence of `p` in `t`.
pub(crate) fn find_chars(t: &Vec<char>, p: &[char]) -> (res: Option<usize>)
    ensures
        match find_from(t@, p@, 0) {
            Some(i) => res matches Some(k) && k as int == i,
            None => res is None,
        },
{
    let n = t.len();
    let m = p.len();
    let mut i: usize = 0;
    while i <= n && m <= n - i
        invariant
            n == t@.len(),
            m == p@.len(),
            find_from(t@, p@, 0) == find_from(t@, p@, i as int),
        decreases n + 1 - i,
    {
        let mut k: usize = 0;
        let mut matched = true;
        while k < m
            invariant
                n == t@.len(),
                m == p@.len(),
                i + m <= n,
                k <= m,
                matched <==> t@.subrange(i as int, i + k) =~= p@.take(k as int),
            decreases m - k,
        {
            if t[i + k] != p[k] {
                matched = false;
            }
            proof {
                if matched {
                    assert(t@.subrange(i as int, i + k + 1) =~= t@.subrange(i as int, i + k).push(t@[i + k]));
                    assert(p@.take(k + 1) =~= p@.take(k as int).push(p@[k as int]));
                } else {
                    if t@.subrange(i as int, i + k + 1) =~= p@.take(k + 1) {
                        if t@[i + k] == p@[k as int] {
                            assert(t@.subrange(i as int, i + k) =~= p@.take(k as int)) by {
                                assert forall|j: int| 0 <= j < k implies t@.subrange(i as int, i + k)[j] == p@.take(
                                    k as int,
                                )[j] by {
                                    assert(t@.subrange(i as int, i + k + 1)[j] == p@.take(k + 1)[j]);
                                }
                            }
                        } else {
                            assert(t@.subrange(i as int, i + k + 1)[k as int] == p@.take(k + 1)[k as int]);
                        }
                    }
                }
            }
            k = k + 1;
        }
        assert(p@.take(m as int) =~= p@);
        if matched {
            return Some(i);
        }
        i = i + 1;
    }
    None
}

/// Finds the first occurrence of `p` in `t[a..b]`, as a position of `t`.
pub(crate) fn find_in_range(t: &Vec<char>, p: &[char], a: usize, b: usize) -> (res: Option<usize>)
    requires
        a <= b <= t@.len(),
    ensures
        match find_from(t@.subrange(a as int, b as int), p@, 0) {
            Some(i) => res matches Some(k) && k == a + i,
            None => res is None,
        },
{
    let ghost w = t@.subrange(a as int, b as int);
    let m = p.len();
    let mut i: usize = a;
    while i <= b && m <= b - i
        invariant
            a <= i,
            a <= b <= t@.len(),
            m == p@.len(),
            w == t@.subrange(a as int, b as int),
            find_from(w, p@, 0) == find_from(w, p@, i - a),
        decreases b + 1 - i,
    {
        let mut k: usize = 0;
        let mut matched = true;
        while k < m
            invariant
                b <= t@.len(),
                m == p@.len(),
                i + m <= b,
                k <= m,
                matched <==> t@.subrange(i as int, i + k) =~= p@.take(k as int),
            decreases m - k,
        {
            if t[i + k] != p[k] {
                matched = false;
            }
            proof {
                if matched {
                    assert(t@.subrange(i as int, i + k + 1) =~= t@.subrange(i as int, i + k).push(t@[i + k]));
                    assert(p@.take(k + 1) =~= p@.take(k as int).push(p@[k as int]));
                } else {
                    if t@.subrange(i as int, i + k + 1) =~= p@.take(k + 1) {
                        if t@[i + k] == p@[k as int] {
                            assert(t@.subrange(i as int, i + k) =~= p@.take(k as int)) by {
                                assert forall|j: int| 0 <= j < k implies t@.subrange(i as int, i + k)[j] == p@.take(
                                    k as int,
                                )[j] by {
                                    assert(t@.subrange(i as int, i + k + 1)[j] == p@.take(k + 1)[j]);
                                }
                            }
                        } else {
                            assert(t@.subrange(i as int, i + k + 1)[k as int] == p@.take(k + 1)[k as int]);
                        }
                    }
                }
            }
            k = k + 1;
        }
        assert(p@.take(m as int) =~= p@);
        assert(w.subrange(i - a, i - a + m) =~= t@.subrange(i as int, i + m));
        if matched {
            return Some(i);
        }
        i = i + 1;
    }
    None
}

/// The position of the first NUL at or after `i`, or the length.
fn nul_index(t: &Vec<char>, i: usize) -> (res: usize)
    requires
        i <= t@.len(),
    ensures
        res == nul_from(t@, i as int),
{
    let mut j = i;
    while j < t.len() && t[j] != '\0'
        invariant
            i <= j <= t@.len(),
            nul_from(t@, i as int) == nul_from(t@, j as int),
        decreases t@.len() - j,
    {
        j = j + 1;
    }
    j
}

/// Whether `c` is a control character.
fn control_char(c: char) -> (res: bool)
    ensures
        res == is_control_char(c),
{
    let v = c as u32;
    v <= 0x1F || (0x7F <= v && v <= 0x9F)
}

/// The bounds of `t[i..e]` without leading and trailing control characters.
fn trim_bounds(t: &Vec<char>, i: usize, e: usize) -> (res: (usize, usize))
    requires
        i <= e <= t@.len(),
    ensures
        res.0 == skip_control(t@, i as int, e as int),
        res.1 == back_control(t@, res.0 as int, e as int),
        i <= res.0 <= res.1 <= e,
{
    let mut a = i;
    while a < e && control_char(t[a])
        invariant
            i <= a <= e <= t@.len(),
            skip_control(t@, i as int, e as int) == skip_control(t@, a as int, e as int),
        decreases e - a,
    {
        a = a + 1;
    }
    let mut b = e;
    while a < b && control_char(t[b - 1])
        invariant
            a <= b <= e <= t@.len(),
            back_control(t@, a as int, e as int) == back_control(t@, a as int, b as int),
        decreases b - a,
    {
        b = b - 1;
    }
    (a, b)
}

/// The text of `t[a..b]`.
pub(crate) fn string_of(t: &Vec<char>, a: usize, b: usize) -> (res: String)
    requires
        a <= b <= t@.len(),
    ensures
        res@ == t@.subrange(a as int, b as int),
{
    let mut out = String::new();
    let mut k = a;
    while k < b
        invariant
            a <= k <= b <= t@.len(),
            out@ =~= t@.subrange(a as int, k as int),
        decreases b - k,
    {
        push_char(&mut out, t[k]);
        k = k + 1;
    }
    out
}

/// The external target through one scheme.
fn scheme_match(t: &Vec<char>, lower: &Vec<char>, scheme: &[char]) -> (res: Option<String>)
    requires
        t@.len() == lower@.len(),
    ensures
        match scheme_target(t@, lower@, scheme@) {
            Some(x) => res matches Some(s) && s@ == x,
            None => res is None,
        },
{
    match find_chars(lower, scheme) {
        None => None,
        Some(start) => {
            proof {
                lemma_find_from(lower@, scheme@, 0);
                lemma_nul_from_bounds(t@, start as int);
            }
            let end = nul_index(t, start);
            let (a, b) = trim_bounds(t, start, end);
            if a < b {
                Some(string_of(t, a, b))
            } else {
                None
            }
        },
    }
}

/// Parses an HLINK record, accepting only targets that can be extracted
/// unambiguously: a URL with a known scheme, or an in-workbook location.
pub fn parse_hlink(data: &[u8]) -> (res: Result<XlsHyperlink, ()>)
    ensures
        match hlink_target(data@) {
            None => res is Err,
            Some((external, text)) => res matches Ok(link) && link.range == range_of(data@) && match link.target {
                HyperlinkTarget::External(s) => external && s@ == text,
                HyperlinkTarget::Internal(s) => !external && s@ == text,
            },
        },
{
    let range = match parse_range(data) {
        Some(r) => r,
        None => {
            return Err(());
        },
    };
    if validate_range(range).is_err() {
        return Err(());
    }
    let len = data.len();
    if len < 36 {
        return Err(());
    }
    let ghost bytes = data@.subrange(8, len as int);
    let count = (len - 8) / 2;
    let mut units: Vec<u16> = Vec::new();
    let mut i: usize = 0;
    while i < count
        invariant
            len == data@.len(),
            len >= 36,
            count == (len - 8) / 2,
            bytes == data@.subrange(8, len as int),
            i <= count,
            units@ =~= units_of(bytes).take(i as int),
        decreases count - i,
    {
        units.push(read_u16_le(data, 8 + 2 * i));
        i = i + 1;
    }
    assert(units@ =~= units_of(bytes));
    let text = decode_utf16_lossy(units.as_slice());
    let lower = lower_ascii(text.as_str());
    let t = chars_of(text.as_str());
    let l = chars_of(lower.as_str());
    let https = ['h', 't', 't', 'p', 's', ':', '/', '/'];
    let http = ['h', 't', 't', 'p', ':', '/', '/'];
    let mailto = ['m', 'a', 'i', 'l', 't', 'o', ':'];
    let tel = ['t', 'e', 'l', ':'];
    assert(https@ =~= https_scheme());
    assert(http@ =~= http_scheme());
    assert(mailto@ =~= mailto_scheme());
    assert(tel@ =~= tel_scheme());
    if let Some(target) = scheme_match(&t, &l, https.as_slice()) {
        return Ok(XlsHyperlink { range, target: HyperlinkTarget::External(target) });
    }
    if let Some(target) = scheme_match(&t, &l, http.as_slice()) {
        return Ok(XlsHyperlink { range, target: HyperlinkTarget::External(target) });
    }
    if let Some(target) = scheme_match(&t, &l, mailto.as_slice()) {
        return Ok(XlsHyperlink { range, target: HyperlinkTarget::External(target) });
    }
    if let Some(target) = scheme_match(&t, &l, tel.as_slice()) {
        return Ok(XlsHyperlink { range, target: HyperlinkTarget::External(target) });
    }
    assert(t@ == hlink_text(data@));
    assert(l@ == ascii_lower(t@));
    assert(external_target(t@, l@) is None);
    let n = t.len();
    let mut start: usize = 0;
    while start < n
        invariant
            n == t@.len(),
            start <= n,
            data@.len() >= 36,
            range == range_of(data@),
            range_valid(range),
            t@ == hlink_text(data@),
            external_target(t@, ascii_lower(t@)) is None,
            internal_from(t@, 0) == internal_from(t@, start as int),
        decreases n - start,
    {
        let end = nul_index(&t, start);
        proof {
            lemma_nul_from_bounds(t@, start as int);
        }
        let (a, b) = trim_bounds(&t, start, end);
        if a < b && t[a] == '#' {
            assert(trimmed(t@, start as int, end as int) == t@.subrange(a as int, b as int));
            let location = string_of(&t, a + 1, b);
            assert(location@ =~= t@.subrange(a as int, b as int).drop_first());
            return Ok(XlsHyperlink { range, target: HyperlinkTarget::Internal(location) });
        }
        if end >= n {
            return Err(());
        }
        start = end + 1;
    }
    Err(())
}

} // verus!


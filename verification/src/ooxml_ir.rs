//! Source-to-OOXML projection rules: toggles, colors, fonts, grids and images.

use vstd::prelude::*;

use crate::binary::{le_u16, le_u32, read_u16_le, read_u32_le};
use crate::document::WordBinaryDocument;
use crate::error::{DocError, ErrorKind, Result, message};
use crate::formatting::{SemanticFormattingIndex, StyledCharacterRun, StyledParagraphRun};
use crate::properties::{
    CharacterPropertyDelta, ParagraphPropertyDelta, ToggleValue, apply_character_sprms, character_fields_match,
    character_sprm_ok,
};
use crate::tables::{Table, TableRow, VerticalMerge};
use crate::text::utf16_lossy;

verus! {

/// The value of a toggle relative to the style's value `style`.
pub open spec fn toggle_value(value: Option<ToggleValue>, style: bool) -> bool {
    match value {
        Some(ToggleValue::On) => true,
        Some(ToggleValue::Off) | None => false,
        Some(ToggleValue::SameAsStyle) => style,
        Some(ToggleValue::OppositeStyle) => !style,
    }
}

/// Evaluates a toggle relative to the style's value.
pub fn evaluate_toggle(value: Option<ToggleValue>, style: bool) -> (res: bool)
    ensures
        res == toggle_value(value, style),
{
    match value {
        Some(ToggleValue::On) => true,
        Some(ToggleValue::Off) | None => false,
        Some(ToggleValue::SameAsStyle) => style,
        Some(ToggleValue::OppositeStyle) => !style,
    }
}

/// Resolves a character toggle: a direct value is taken relative to the
/// style's value; without one, the combined value decides.
pub fn resolve_toggle(direct: Option<ToggleValue>, style: Option<ToggleValue>, combined: Option<ToggleValue>) -> (res:
    bool)
    ensures
        res == match direct {
            Some(v) => toggle_value(Some(v), toggle_value(style, false)),
            None => toggle_value(combined, false),
        },
{
    let style_value = evaluate_toggle(style, false);
    match direct {
        Some(value) => evaluate_toggle(Some(value), style_value),
        None => evaluate_toggle(combined, false),
    }
}

/// Font slot used for one UTF-16 unit.
#[derive(Debug, Clone, Copy, PartialEq, Eq, Structural)]
pub enum FontSlot {
    Ascii,
    EastAsian,
    Bidi,
}

/// The font slot of unit `u`: right-to-left scripts, then East Asian ranges.
pub open spec fn slot_of(u: u16) -> FontSlot {
    if (0x0590 <= u <= 0x08FF) || (0xFB1D <= u <= 0xFEFC) {
        FontSlot::Bidi
    } else if (0x2E80 <= u <= 0xD7AF) || (0xF900 <= u <= 0xFAFF) || (0xFE30 <= u <= 0xFE4F) || (0xFF00 <= u
        <= 0xFFEF) {
        FontSlot::EastAsian
    } else {
        FontSlot::Ascii
    }
}

/// Chooses the font slot of a UTF-16 unit.
pub fn font_slot(unit: u16) -> (res: FontSlot)
    ensures
        res == slot_of(unit),
{
    if (0x0590 <= unit && unit <= 0x08FF) || (0xFB1D <= unit && unit <= 0xFEFC) {
        FontSlot::Bidi
    } else if (0x2E80 <= unit && unit <= 0xD7AF) || (0xF900 <= unit && unit <= 0xFAFF) || (0xFE30 <= unit && unit
        <= 0xFE4F) || (0xFF00 <= unit && unit <= 0xFFEF) {
        FontSlot::EastAsian
    } else {
        FontSlot::Ascii
    }
}

/// The table depth a paragraph's properties declare: its explicit depth
/// (zero when negative or absent), raised to one for an in-table paragraph.
pub open spec fn declared_depth(p: ParagraphPropertyDelta) -> int {
    let d: int = match p.table_depth {
        Some(v) => if v < 0 {
            0
        } else {
            v as int
        },
        None => 0,
    };
    if d == 0 && p.in_table == Some(true) {
        1
    } else {
        d
    }
}

/// Whether a paragraph belongs to the current block: outside any table it
/// must be a body paragraph; inside one, it must have the table's depth.
pub fn paragraph_belongs_here(properties: &ParagraphPropertyDelta, containing_table_depth: Option<u32>) -> (res:
    bool)
    ensures
        res == match containing_table_depth {
            None => declared_depth(*properties) == 0 && properties.in_table != Some(true),
            Some(expected) => declared_depth(*properties) == expected,
        },
{
    let mut depth: u32 = match properties.table_depth {
        Some(v) => if v < 0 {
            0
        } else {
            v as u32
        },
        None => 0,
    };
    if depth == 0 && properties.in_table == Some(true) {
        depth = 1;
    }
    match containing_table_depth {
        None => depth == 0 && properties.in_table != Some(true),
        Some(expected) => depth == expected,
    }
}

/// A picture extent: the goal size in twips scaled by tenths of a percent.
pub fn scaled_twips(goal: i16, scale: u16) -> (res: Result<u64>)
    ensures
        res == Ok::<u64, DocError>(((if goal < 0 {
            -goal
        } else {
            goal as int
        }) * scale / 1000) as u64),
{
    let magnitude: u64 = if goal < 0 {
        (-(goal as i32)) as u64
    } else {
        goal as u64
    };
    assert(magnitude * scale <= 32768 * 65535) by (nonlinear_arith)
        requires
            magnitude <= 32768,
            scale <= 65535,
    ;
    Ok(magnitude * scale as u64 / 1000)
}

/// The little-endian bytes of `v`.
pub open spec fn u32_le_bytes(v: u32) -> Seq<u8> {
    seq![(v % 256) as u8, ((v / 256) % 256) as u8, ((v / 65536) % 256) as u8, ((v / 16777216) % 256) as u8]
}

/// Two to the power `b`.
pub open spec fn pow2(b: nat) -> nat
    decreases b,
{
    if b == 0 {
        1
    } else {
        2 * pow2((b - 1) as nat)
    }
}

/// The BMP file that wraps device-independent bitmap `dib`: a file header
/// whose pixel offset skips the DIB header and palette; `None` when the DIB
/// header or palette does not fit or a size leaves the `u32` range.
pub open spec fn bmp_of(dib: Seq<u8>) -> Option<Seq<u8>> {
    let header = le_u32(dib, 0) as int;
    if dib.len() < 12 || header > dib.len() || (header != 12 && header < 40) {
        None
    } else {
        let bpp: int = if header == 12 {
            le_u16(dib, 10) as int
        } else {
            le_u16(dib, 14) as int
        };
        let used: int = if header == 12 {
            0
        } else {
            le_u32(dib, 32) as int
        };
        let entry: int = if header == 12 {
            3
        } else {
            4
        };
        let entries: int = if used != 0 {
            used
        } else if bpp <= 8 {
            pow2(bpp as nat) as int
        } else {
            0
        };
        let pixel_offset = 14 + header + entries * entry;
        if pixel_offset > usize::MAX || pixel_offset - 14 > dib.len() || 14 + dib.len() > u32::MAX
            || pixel_offset > u32::MAX {
            None
        } else {
            Some(
                seq![0x42u8, 0x4D] + u32_le_bytes((14 + dib.len()) as u32) + seq![0u8, 0, 0, 0] + u32_le_bytes(
                    pixel_offset as u32,
                ) + dib,
            )
        }
    }
}

/// Appends the little-endian bytes of `v`.
fn push_u32_le(out: &mut Vec<u8>, v: u32)
    ensures
        final(out)@ == old(out)@ + u32_le_bytes(v),
{
    out.push((v % 256) as u8);
    out.push(((v / 256) % 256) as u8);
    out.push(((v / 65536) % 256) as u8);
    out.push(((v / 16777216) % 256) as u8);
    assert(out@ =~= old(out)@ + u32_le_bytes(v));
}

/// Wraps a device-independent bitmap in a BMP file header.
#[verifier::rlimit(40)]
pub fn dib_to_bmp(dib: &[u8]) -> (res: Result<Vec<u8>>)
    ensures
        match bmp_of(dib@) {
            Some(b) => res matches Ok(v) && v@ == b,
            None => res is Err && res->Err_0.kind() == ErrorKind::InvalidMedia,
        },
{
    let len = dib.len();
    if len < 12 {
        return Err(DocError::InvalidMedia(message("DIB is shorter than its header")));
    }
    let header_size = read_u32_le(dib, 0) as usize;
    if header_size > len {
        return Err(DocError::InvalidMedia(message("DIB header exceeds payload")));
    }
    let (bits_per_pixel, colors_used, palette_entry_size): (u16, u32, usize) = if header_size == 12 {
        (read_u16_le(dib, 10), 0, 3)
    } else if header_size >= 40 {
        (read_u16_le(dib, 14), read_u32_le(dib, 32), 4)
    } else {
        return Err(DocError::InvalidMedia(message("unsupported DIB header size")));
    };
    let palette_entries: usize = if colors_used != 0 {
        colors_used as usize
    } else if bits_per_pixel <= 8 {
        let mut e: usize = 1;
        let mut i: u16 = 0;
        while i < bits_per_pixel
            invariant
                bits_per_pixel <= 8,
                i <= bits_per_pixel,
                e == pow2(i as nat),
                e <= 256,
            decreases bits_per_pixel - i,
        {
            proof {
                assert(pow2((i + 1) as nat) == 2 * pow2(i as nat));
                lemma_pow2_le((i + 1) as nat, 8);
                assert(pow2(8) == 256) by {
                    reveal_with_fuel(pow2, 9);
                }
            }
            e = e * 2;
            i = i + 1;
        }
        e
    } else {
        0
    };
    if palette_entries > usize::MAX / palette_entry_size {
        assert(palette_entries * palette_entry_size > usize::MAX) by (nonlinear_arith)
            requires
                palette_entries > usize::MAX / palette_entry_size,
                palette_entry_size > 0,
        ;
        return Err(DocError::InvalidMedia(message("DIB palette size overflow")));
    }
    assert(palette_entries * palette_entry_size <= usize::MAX) by (nonlinear_arith)
        requires
            palette_entries <= usize::MAX / palette_entry_size,
            palette_entry_size > 0,
    ;
    let palette_bytes = palette_entries * palette_entry_size;
    if header_size > usize::MAX - 14 || palette_bytes > usize::MAX - 14 - header_size {
        return Err(DocError::InvalidMedia(message("BMP pixel offset overflow")));
    }
    let pixel_offset = 14 + header_size + palette_bytes;
    if pixel_offset - 14 > len {
        return Err(DocError::InvalidMedia(message("DIB palette exceeds payload")));
    }
    if len > 0xFFFF_FFFF - 14 {
        return Err(DocError::InvalidMedia(message("BMP file exceeds u32")));
    }
    let file_size = 14 + len;
    if pixel_offset > 0xFFFF_FFFF {
        return Err(DocError::InvalidMedia(message("BMP pixel offset exceeds u32")));
    }
    let mut bmp: Vec<u8> = Vec::new();
    bmp.push(0x42);
    bmp.push(0x4D);
    push_u32_le(&mut bmp, file_size as u32);
    bmp.push(0);
    bmp.push(0);
    bmp.push(0);
    bmp.push(0);
    push_u32_le(&mut bmp, pixel_offset as u32);
    let ghost prefix = bmp@;
    let mut k: usize = 0;
    while k < len
        invariant
            len == dib@.len(),
            k <= len,
            bmp@ == prefix + dib@.take(k as int),
        decreases len - k,
    {
        bmp.push(dib[k]);
        assert(dib@.take(k as int + 1) =~= dib@.take(k as int).push(dib@[k as int]));
        k = k + 1;
    }
    assert(dib@.take(len as int) =~= dib@);
    assert(bmp@ =~= seq![0x42u8, 0x4D] + u32_le_bytes(file_size as u32) + seq![0u8, 0, 0, 0] + u32_le_bytes(
        pixel_offset as u32,
    ) + dib@);
    Ok(bmp)
}

/// Powers of two grow with the exponent.
proof fn lemma_pow2_le(i: nat, j: nat)
    requires
        i <= j,
    ensures
        pow2(i) <= pow2(j),
    decreases j,
{
    if i < j {
        lemma_pow2_le(i, (j - 1) as nat);
    }
}

/// The red, green and blue bytes of a `COLORREF`.
pub fn color_ref(value: u32) -> (res: [u8; 3])
    ensures
        res@ == seq![(value % 256) as u8, ((value / 256) % 256) as u8, ((value / 65536) % 256) as u8],
{
    let res = [(value % 256) as u8, ((value / 256) % 256) as u8, ((value / 65536) % 256) as u8];
    assert(res@ =~= seq![(value % 256) as u8, ((value / 256) % 256) as u8, ((value / 65536) % 256) as u8]);
    res
}

/// The RGB value of Word's indexed color `v`: the sixteen `ico` colors,
/// none for automatic or out-of-range values.
pub open spec fn ico_color(v: u8) -> Option<Seq<u8>> {
    if v == 1 {
        Some(seq![0u8, 0, 0])
    } else if v == 2 {
        Some(seq![0u8, 0, 255])
    } else if v == 3 {
        Some(seq![0u8, 255, 255])
    } else if v == 4 {
        Some(seq![0u8, 128, 0])
    } else if v == 5 {
        Some(seq![255u8, 0, 255])
    } else if v == 6 {
        Some(seq![255u8, 0, 0])
    } else if v == 7 {
        Some(seq![255u8, 255, 0])
    } else if v == 8 {
        Some(seq![255u8, 255, 255])
    } else if v == 9 {
        Some(seq![0u8, 0, 128])
    } else if v == 10 {
        Some(seq![0u8, 128, 128])
    } else if v == 11 {
        Some(seq![0u8, 64, 0])
    } else if v == 12 {
        Some(seq![128u8, 0, 128])
    } else if v == 13 {
        Some(seq![128u8, 0, 0])
    } else if v == 14 {
        Some(seq![128u8, 128, 0])
    } else if v == 15 {
        Some(seq![128u8, 128, 128])
    } else if v == 16 {
        Some(seq![192u8, 192, 192])
    } else {
        None
    }
}

/// The RGB value of a Word indexed color.
pub fn indexed_color(value: u8) -> (res: Option<[u8; 3]>)
    ensures
        match ico_color(value) {
            Some(c) => res matches Some(r) && r@ == c,
            None => res is None,
        },
{
    let rgb: [u8; 3] = if value == 1 {
        [0, 0, 0]
    } else if value == 2 {
        [0, 0, 255]
    } else if value == 3 {
        [0, 255, 255]
    } else if value == 4 {
        [0, 128, 0]
    } else if value == 5 {
        [255, 0, 255]
    } else if value == 6 {
        [255, 0, 0]
    } else if value == 7 {
        [255, 255, 0]
    } else if value == 8 {
        [255, 255, 255]
    } else if value == 9 {
        [0, 0, 128]
    } else if value == 10 {
        [0, 128, 128]
    } else if value == 11 {
        [0, 64, 0]
    } else if value == 12 {
        [128, 0, 128]
    } else if value == 13 {
        [128, 0, 0]
    } else if value == 14 {
        [128, 128, 0]
    } else if value == 15 {
        [128, 128, 128]
    } else if value == 16 {
        [192, 192, 192]
    } else {
        return None;
    };
    assert(rgb@ =~= ico_color(value).unwrap());
    Some(rgb)
}

/// The number of rows from `r` on whose cell `c` continues a vertical merge.
pub open spec fn continuation_run(rows: Seq<TableRow>, r: int, c: int) -> int
    decreases rows.len() - r,
{
    if r < 0 || r >= rows.len() || c < 0 || c >= rows[r].cells@.len() || rows[r].cells@[c].format.vertical_merge
        != VerticalMerge::Continuation {
        0
    } else {
        1 + continuation_run(rows, r + 1, c)
    }
}

/// Continuation counts are bounded by the rows left.
proof fn lemma_continuation_bound(rows: Seq<TableRow>, r: int, c: int)
    requires
        0 <= r,
    ensures
        0 <= continuation_run(rows, r, c) <= if rows.len() > r {
            rows.len() - r
        } else {
            0
        },
    decreases rows.len() - r,
{
    if r < rows.len() {
        lemma_continuation_bound(rows, r + 1, c);
    }
}

/// The number of rows a cell spans vertically: one, or for a merge start,
/// one more for each following row whose cell continues the merge.
pub fn vertical_span(table: &Table, row_index: usize, cell_index: usize) -> (res: u32)
    requires
        row_index < table.rows@.len(),
        table.rows@.len() < u32::MAX,
    ensures
        ({
            let cells = table.rows@[row_index as int].cells@;
            res == if cell_index >= cells.len() || cells[cell_index as int].format.vertical_merge
                != VerticalMerge::Start {
                1
            } else {
                1 + continuation_run(table.rows@, row_index + 1, cell_index as int)
            }
        }),
{
    let rows = &table.rows;
    if cell_index >= rows[row_index].cells.len() {
        return 1;
    }
    let merge = rows[row_index].cells[cell_index].format.vertical_merge;
    if merge != VerticalMerge::Start {
        return 1;
    }
    let mut span: u32 = 1;
    let mut r = row_index + 1;
    proof {
        lemma_continuation_bound(rows@, r as int, cell_index as int);
    }
    while r < rows.len() && cell_index < rows[r].cells.len() && rows[r].cells[cell_index].format.vertical_merge
        == VerticalMerge::Continuation
        invariant
            rows@ == table.rows@,
            rows@.len() < u32::MAX,
            row_index < r <= rows@.len(),
            span == r - row_index,
            cell_index < rows@[row_index as int].cells@.len(),
            rows@[row_index as int].cells@[cell_index as int].format.vertical_merge == VerticalMerge::Start,
            1 + continuation_run(rows@, row_index + 1, cell_index as int) == span + continuation_run(
                rows@,
                r as int,
                cell_index as int,
            ),
        decreases rows@.len() - r,
    {
        span = span + 1;
        r = r + 1;
    }
    span
}

/// Whether edge `k` of the definition of `row` is `e`.
pub open spec fn row_edge(row: TableRow, k: int, e: i16) -> bool {
    match row.properties.definition {
        Some(d) => 0 <= k < d.cell_edges_twips@.len() && d.cell_edges_twips@[k] == e,
        None => false,
    }
}

/// Whether `e` is an edge of a row definition of `rows`.
pub open spec fn is_grid_edge(rows: Seq<TableRow>, e: i16) -> bool {
    exists|r: int, k: int| 0 <= r < rows.len() && #[trigger] row_edge(rows[r], k, e)
}

/// Whether `v` increases strictly.
pub open spec fn strictly_ascending(v: Seq<i16>) -> bool {
    forall|i: int, j: int| 0 <= i < j < v.len() ==> v[i] < v[j]
}

/// Adds `e` to the strictly ascending `edges` unless it is there already.
fn insert_edge(edges: &mut Vec<i16>, e: i16)
    requires
        strictly_ascending(old(edges)@),
    ensures
        strictly_ascending(final(edges)@),
        forall|x: i16| #[trigger] final(edges)@.contains(x) ==> (old(edges)@.contains(x) || x == e),
        forall|x: i16| #[trigger] old(edges)@.contains(x) ==> final(edges)@.contains(x),
        final(edges)@.contains(e),
{
    let mut pos: usize = 0;
    while pos < edges.len() && edges[pos] < e
        invariant
            pos <= edges@.len(),
            forall|i: int| 0 <= i < pos ==> edges@[i] < e,
        decreases edges@.len() - pos,
    {
        pos = pos + 1;
    }
    if pos < edges.len() && edges[pos] == e {
        return;
    }
    let ghost before = edges@;
    assert(before == old(edges)@);
    edges.insert(pos, e);
    proof {
        assert forall|i: int, j: int| 0 <= i < j < edges@.len() implies edges@[i] < edges@[j] by {
            if j == pos {
                assert(edges@[i] == before[i]);
            } else if i == pos {
                assert(edges@[j] == before[j - 1]);
                assert(before[pos as int] > e);
                assert(before[pos as int] <= before[j - 1]);
            } else if i < pos && j > pos {
                assert(edges@[i] == before[i]);
                assert(edges@[j] == before[j - 1]);
            } else if j < pos {
                assert(edges@[i] == before[i]);
                assert(edges@[j] == before[j]);
            } else {
                assert(edges@[i] == before[i - 1]);
                assert(edges@[j] == before[j - 1]);
            }
        }
        assert forall|x: i16| edges@.contains(x) implies (before.contains(x) || x == e) by {
            let i = choose|i: int| 0 <= i < edges@.len() && edges@[i] == x;
            if i < pos {
                assert(before[i] == x);
            } else if i > pos {
                assert(before[i - 1] == x);
            }
        }
        assert forall|x: i16| (before.contains(x) || x == e) implies edges@.contains(x) by {
            if x == e {
                assert(edges@[pos as int] == e);
            } else {
                let i = choose|i: int| 0 <= i < before.len() && before[i] == x;
                if i < pos {
                    assert(edges@[i] == x);
                } else {
                    assert(edges@[i + 1] == x);
                }
            }
        }
        assert(edges@[pos as int] == e);
        assert(edges@.contains(e));
    }
}

/// The unified column grid of a table: every distinct cell edge of its row
/// definitions, ascending; at least two edges are needed.
pub fn table_grid_edges(source: &Table) -> (res: Result<Vec<i16>>)
    ensures
        res matches Ok(v) ==> strictly_ascending(v@) && v@.len() >= 2 && forall|e: i16|
            v@.contains(e) <==> is_grid_edge(source.rows@, e),
        res is Err ==> res->Err_0.kind() == ErrorKind::InvalidTable && !(exists|a: i16, b: i16|
            a != b && is_grid_edge(source.rows@, a) && is_grid_edge(source.rows@, b)),
{
    let rows = &source.rows;
    let mut edges: Vec<i16> = Vec::new();
    let mut r: usize = 0;
    while r < rows.len()
        invariant
            rows@ == source.rows@,
            r <= rows@.len(),
            strictly_ascending(edges@),
            forall|e: i16| edges@.contains(e) <==> is_grid_edge(rows@.take(r as int), e),
        decreases rows@.len() - r,
    {
        let ghost t = rows@.take(r as int + 1);
        let ghost p = rows@.take(r as int);
        assert(forall|rr: int| 0 <= rr < r ==> #[trigger] t[rr] == p[rr]);
        assert(t[r as int] == rows@[r as int]);
        match &rows[r].properties.definition {
            Some(d) => {
                let edge_list = &d.cell_edges_twips;
                let mut k: usize = 0;
                while k < edge_list.len()
                    invariant
                        rows@ == source.rows@,
                        r < rows@.len(),
                        rows@[r as int].properties.definition == Some(*d),
                        edge_list@ == d.cell_edges_twips@,
                        k <= edge_list@.len(),
                        strictly_ascending(edges@),
                        forall|e: i16|
                            edges@.contains(e) <==> (is_grid_edge(rows@.take(r as int), e) || exists|q: int|
                                0 <= q < k && edge_list@[q] == e),
                    decreases edge_list@.len() - k,
                {
                    let ghost prev = edges@;
                    let v = edge_list[k];
                    insert_edge(&mut edges, v);
                    proof {
                        assert forall|e: i16|
                            edges@.contains(e) <==> (is_grid_edge(rows@.take(r as int), e) || exists|q: int|
                                0 <= q < k + 1 && edge_list@[q] == e) by {
                            if edges@.contains(e) {
                                if prev.contains(e) {
                                    if !is_grid_edge(rows@.take(r as int), e) {
                                        let q = choose|q: int| 0 <= q < k && edge_list@[q] == e;
                                        assert(0 <= q < k + 1 && edge_list@[q] == e);
                                    }
                                } else {
                                    assert(e == v);
                                    assert(edge_list@[k as int] == e);
                                }
                            }
                            if is_grid_edge(rows@.take(r as int), e) {
                                assert(prev.contains(e));
                            } else if exists|q: int| 0 <= q < k + 1 && edge_list@[q] == e {
                                let q = choose|q: int| 0 <= q < k + 1 && edge_list@[q] == e;
                                if q < k {
                                    assert(exists|q2: int| 0 <= q2 < k && edge_list@[q2] == e);
                                    assert(prev.contains(e));
                                } else {
                                    assert(e == v);
                                }
                            }
                        }
                    }
                    k = k + 1;
                }
                proof {
                    assert forall|e: i16| edges@.contains(e) <==> is_grid_edge(t, e) by {
                        if is_grid_edge(t, e) {
                            let (rr, kk) = choose|rr: int, kk: int| 0 <= rr < t.len() && #[trigger] row_edge(t[rr], kk, e);
                            if rr < r {
                                assert(row_edge(p[rr], kk, e));
                            } else {
                                assert(edge_list@[kk] == e);
                            }
                        }
                        if is_grid_edge(p, e) {
                            let (rr, kk) = choose|rr: int, kk: int| 0 <= rr < p.len() && #[trigger] row_edge(p[rr], kk, e);
                            assert(row_edge(t[rr], kk, e));
                        }
                        if exists|q: int| 0 <= q < k && edge_list@[q] == e {
                            let q = choose|q: int| 0 <= q < k && edge_list@[q] == e;
                            assert(row_edge(t[r as int], q, e));
                        }
                    }
                }
            },
            None => {
                proof {
                    assert forall|e: i16| edges@.contains(e) <==> is_grid_edge(t, e) by {
                        if is_grid_edge(t, e) {
                            let (rr, kk) = choose|rr: int, kk: int| 0 <= rr < t.len() && #[trigger] row_edge(t[rr], kk, e);
                            if rr < r {
                                assert(row_edge(p[rr], kk, e));
                            }
                        }
                        if is_grid_edge(p, e) {
                            let (rr, kk) = choose|rr: int, kk: int| 0 <= rr < p.len() && #[trigger] row_edge(p[rr], kk, e);
                            assert(row_edge(t[rr], kk, e));
                        }
                    }
                }
            },
        }
        r = r + 1;
    }
    assert(rows@.take(rows@.len() as int) =~= rows@);
    if edges.len() < 2 {
        proof {
            if exists|a: i16, b: i16| a != b && is_grid_edge(source.rows@, a) && is_grid_edge(source.rows@, b) {
                let (a, b) = choose|a: i16, b: i16|
                    a != b && is_grid_edge(source.rows@, a) && is_grid_edge(source.rows@, b);
                assert(edges@.contains(a) && edges@.contains(b));
                let i = choose|i: int| 0 <= i < edges@.len() && edges@[i] == a;
                let j = choose|j: int| 0 <= j < edges@.len() && edges@[j] == b;
                assert(i != j);
            }
        }
        return Err(DocError::InvalidTable(message("table has fewer than two distinct grid edges")));
    }
    Ok(edges)
}

/// The index of `value` in the strictly ascending `values`, if present.
fn find_edge(values: &[i16], value: i16) -> (res: Option<usize>)
    ensures
        res matches Some(i) ==> i < values@.len() && values@[i as int] == value,
        res is None ==> !values@.contains(value),
{
    let mut i: usize = 0;
    while i < values.len()
        invariant
            i <= values@.len(),
            forall|j: int| 0 <= j < i ==> values@[j] != value,
        decreases values@.len() - i,
    {
        if values[i] == value {
            return Some(i);
        }
        i = i + 1;
    }
    None
}

/// The column span and width of cell `cell_index` of `row` spanning
/// `source_span` definition columns, placed on the unified grid.
pub fn cell_grid_geometry(
    row: &TableRow,
    row_index: usize,
    cell_index: usize,
    source_span: usize,
    grid_edges: &[i16],
) -> (res: Result<(u32, Option<u32>)>)
    requires
        strictly_ascending(grid_edges@),
    ensures
        res is Err ==> res->Err_0.kind() == ErrorKind::InvalidTable,
        res matches Ok((span, width)) ==> row.properties.definition matches Some(d) && {
            let edges = d.cell_edges_twips@;
            let a = edges[cell_index as int];
            let b = edges[cell_index + source_span];
            &&& cell_index + source_span < edges.len()
            &&& exists|gs: int, ge: int|
                0 <= gs <= ge < grid_edges@.len() && grid_edges@[gs] == a && grid_edges@[ge] == b && span == ge
                    - gs
            &&& width == Some((if b >= a {
                b - a
            } else {
                a - b
            }) as u32)
        },
        (row.properties.definition matches Some(d) && cell_index + source_span < d.cell_edges_twips@.len()
            && grid_edges@.contains(d.cell_edges_twips@[cell_index as int]) && grid_edges@.contains(
            d.cell_edges_twips@[cell_index + source_span],
        ) && d.cell_edges_twips@[cell_index as int] <= d.cell_edges_twips@[cell_index + source_span]
            && grid_edges@.len() <= u32::MAX) ==> res is Ok,
{
    let definition = match &row.properties.definition {
        Some(d) => d,
        None => {
            return Err(DocError::InvalidTable(message("table cell has no matching grid edges")));
        },
    };
    let edges = &definition.cell_edges_twips;
    let elen = edges.len();
    if source_span > usize::MAX - cell_index || cell_index + source_span >= elen {
        return Err(DocError::InvalidTable(message("table cell has no matching grid edges")));
    }
    let start = edges[cell_index];
    let end = edges[cell_index + source_span];
    let grid_start = match find_edge(grid_edges, start) {
        Some(i) => i,
        None => {
            return Err(DocError::InvalidTable(message("table cell start is outside the unified grid")));
        },
    };
    let grid_end = match find_edge(grid_edges, end) {
        Some(i) => i,
        None => {
            return Err(DocError::InvalidTable(message("table cell end is outside the unified grid")));
        },
    };
    if grid_end < grid_start || grid_end - grid_start > 0xFFFF_FFFF {
        proof {
            if start <= end && grid_end < grid_start {
                assert(grid_edges@[grid_end as int] < grid_edges@[grid_start as int]);
            }
        }
        return Err(DocError::InvalidTable(message("table grid span does not fit u32")));
    }
    proof {
        if start <= end {
            assert(grid_end - grid_start <= grid_edges@.len());
        }
    }
    let difference: i32 = end as i32 - start as i32;
    let width: u32 = if difference < 0 {
        (-difference) as u32
    } else {
        difference as u32
    };
    Ok(((grid_end - grid_start) as u32, Some(width)))
}

/// The first run from `i` containing CP `p`.
pub open spec fn first_containing(runs: Seq<StyledParagraphRun>, p: int, i: int) -> Option<int>
    decreases runs.len() - i,
{
    if i < 0 || i >= runs.len() {
        None
    } else if runs[i].cp_start <= p < runs[i].cp_end {
        Some(i)
    } else {
        first_containing(runs, p, i + 1)
    }
}

/// The last of the first `k` runs that overlaps `[a, b)`.
pub open spec fn last_overlapping(runs: Seq<StyledParagraphRun>, a: int, b: int, k: int) -> Option<int>
    decreases k,
{
    if k <= 0 {
        None
    } else if runs[k - 1].cp_start < b && runs[k - 1].cp_end > a {
        Some(k - 1)
    } else {
        last_overlapping(runs, a, b, k - 1)
    }
}

/// The paragraph run supplying the properties of logical paragraph
/// `[a, b)`: the first run containing its last CP, else the last run
/// overlapping it.
pub open spec fn paragraph_source(runs: Seq<StyledParagraphRun>, a: u32, b: u32) -> Option<int> {
    let p: int = if b == 0 {
        0
    } else {
        b - 1
    };
    match first_containing(runs, p, 0) {
        Some(i) => Some(i),
        None => last_overlapping(runs, a as int, b as int, runs.len() as int),
    }
}

/// Finds the paragraph run of logical paragraph `[cp_start, cp_end)`.
pub fn logical_paragraph(runs: &[StyledParagraphRun], cp_start: u32, cp_end: u32) -> (res: Result<(u32, u32, usize)>)
    ensures
        match paragraph_source(runs@, cp_start, cp_end) {
            Some(i) => res == Ok::<(u32, u32, usize), DocError>((cp_start, cp_end, i as usize)),
            None => res is Err && res->Err_0.kind() == ErrorKind::InvalidFormatting,
        },
{
    let property_cp = if cp_end == 0 {
        0
    } else {
        cp_end - 1
    };
    let mut i: usize = 0;
    while i < runs.len()
        invariant
            i <= runs@.len(),
            property_cp as int == (if cp_end == 0 { 0 } else { cp_end - 1 }),
            first_containing(runs@, property_cp as int, 0) == first_containing(runs@, property_cp as int, i as int),
        decreases runs@.len() - i,
    {
        if runs[i].cp_start <= property_cp && property_cp < runs[i].cp_end {
            assert(first_containing(runs@, property_cp as int, i as int) == Some(i as int));
            return Ok((cp_start, cp_end, i));
        }
        i = i + 1;
    }
    let mut k: usize = runs.len();
    while k > 0
        invariant
            k <= runs@.len(),
            property_cp as int == (if cp_end == 0 { 0 } else { cp_end - 1 }),
            first_containing(runs@, property_cp as int, 0) is None,
            last_overlapping(runs@, cp_start as int, cp_end as int, runs@.len() as int) == last_overlapping(
                runs@,
                cp_start as int,
                cp_end as int,
                k as int,
            ),
        decreases k,
    {
        if runs[k - 1].cp_start < cp_end && runs[k - 1].cp_end > cp_start {
            assert(last_overlapping(runs@, cp_start as int, cp_end as int, k as int) == Some(k - 1));
            return Ok((cp_start, cp_end, k - 1));
        }
        k = k - 1;
    }
    Err(DocError::InvalidFormatting(message("logical paragraph has no PAPX run")))
}

/// Splitting the first `k` units of `u` (starting at CP `a`) at paragraph
/// and cell marks: the paragraphs ended so far with their runs, and the
/// start of the open paragraph.
pub open spec fn split_fold(u: Seq<u16>, runs: Seq<StyledParagraphRun>, a: u32, k: int) -> crate::error::Outcome<
    (Seq<(u32, u32, usize)>, u32),
>
    decreases k,
{
    if k <= 0 {
        Ok((seq![], a))
    } else {
        match split_fold(u, runs, a, k - 1) {
            Err(e) => Err(e),
            Ok((ps, start)) => if !(u[k - 1] == 0x000D || u[k - 1] == 0x0007) {
                Ok((ps, start))
            } else if a + k > u32::MAX {
                Err(ErrorKind::InvalidFormatting)
            } else {
                match paragraph_source(runs, start, (a + k) as u32) {
                    None => Err(ErrorKind::InvalidFormatting),
                    Some(i) => Ok((ps.push((start, (a + k) as u32, i as usize)), (a + k) as u32)),
                }
            },
        }
    }
}

/// The logical paragraphs of `[a, b)` of `doc` with their runs, or the failure kind.
pub open spec fn paragraphs_outcome(doc: WordBinaryDocument, runs: Seq<StyledParagraphRun>, a: u32, b: u32) -> crate::error::Outcome<
    Seq<(u32, u32, usize)>,
> {
    match doc.spec_decode(a, b) {
        Err(e) => Err(e),
        Ok(u) => match split_fold(u, runs, a, u.len() as int) {
            Err(e) => Err(e),
            Ok((ps, start)) => if start < b {
                match paragraph_source(runs, start, b) {
                    None => Err(ErrorKind::InvalidFormatting),
                    Some(i) => Ok(ps.push((start, b, i as usize))),
                }
            } else {
                Ok(ps)
            },
        },
    }
}

/// Once splitting fails, splitting more units keeps the failure.
proof fn lemma_split_failed(u: Seq<u16>, runs: Seq<StyledParagraphRun>, a: u32, i: int, j: int)
    requires
        0 <= i <= j,
        split_fold(u, runs, a, i) is Err,
    ensures
        split_fold(u, runs, a, j) == split_fold(u, runs, a, i),
    decreases j - i,
{
    if j > i {
        lemma_split_failed(u, runs, a, i, j - 1);
    }
}

/// Splits `[cp_start, cp_end)` into logical paragraphs at paragraph and cell
/// marks and finds the run of each.
pub fn logical_paragraphs(document: &WordBinaryDocument, runs: &[StyledParagraphRun], cp_start: u32, cp_end: u32) -> (res:
    Result<Vec<(u32, u32, usize)>>)
    ensures
        match paragraphs_outcome(*document, runs@, cp_start, cp_end) {
            Ok(ps) => res matches Ok(v) && v@ == ps,
            Err(e) => res is Err && res->Err_0.kind() == e,
        },
{
    let decoded = document.decode_range(cp_start, cp_end)?;
    let units = &decoded.utf16;
    let ghost u = units@;
    let mut ranges: Vec<(u32, u32, usize)> = Vec::new();
    let mut start = cp_start;
    let mut index: usize = 0;
    while index < units.len()
        invariant
            u == units@,
            document.spec_decode(cp_start, cp_end) == Ok::<Seq<u16>, ErrorKind>(u),
            index <= u.len(),
            split_fold(u, runs@, cp_start, index as int) == Ok::<(Seq<(u32, u32, usize)>, u32), ErrorKind>(
                (ranges@, start),
            ),
        decreases u.len() - index,
    {
        let unit = units[index];
        if unit == 0x000D || unit == 0x0007 {
            if index as u64 + 1 > 0xFFFF_FFFF - cp_start as u64 {
                proof {
                    assert(split_fold(u, runs@, cp_start, index as int + 1) is Err);
                    lemma_split_failed(u, runs@, cp_start, index as int + 1, u.len() as int);
                }
                return Err(DocError::InvalidFormatting(message("logical paragraph CP overflow")));
            }
            let end = cp_start + (index + 1) as u32;
            match logical_paragraph(runs, start, end) {
                Ok(p) => {
                    ranges.push(p);
                },
                Err(e) => {
                    proof {
                        assert(split_fold(u, runs@, cp_start, index as int + 1) is Err);
                        lemma_split_failed(u, runs@, cp_start, index as int + 1, u.len() as int);
                    }
                    return Err(e);
                },
            }
            start = end;
        }
        index = index + 1;
    }
    if start < cp_end {
        let p = logical_paragraph(runs, start, cp_end)?;
        ranges.push(p);
    }
    Ok(ranges)
}

/// The character properties a run gets from its styles alone: the styled
/// modifiers before the run's own direct ones.
pub fn style_character_properties(semantic: &SemanticFormattingIndex, run: &StyledCharacterRun) -> (res: Result<
    CharacterPropertyDelta,
>)
    requires
        run.direct_run_index < semantic.character_runs@.len(),
    ensures
        ({
            let direct = semantic.character_runs@[run.direct_run_index as int].sprms@.len();
            let all = run.sprms@;
            if all.len() < direct {
                res is Err && res->Err_0.kind() == ErrorKind::InvalidFormatting
            } else {
                let style = all.take(all.len() - direct);
                if forall|i: int| 0 <= i < style.len() ==> #[trigger] character_sprm_ok(style[i]) {
                    res matches Ok(d) && character_fields_match(d, style, style.len() as int)
                } else {
                    res is Err && res->Err_0.kind() == ErrorKind::InvalidFormatting
                }
            }
        }),
{
    let direct_length = semantic.character_runs[run.direct_run_index].sprms.len();
    let total = run.sprms.len();
    if total < direct_length {
        return Err(DocError::InvalidFormatting(message("styled character run is shorter than its direct SPRMs")));
    }
    let style_length = total - direct_length;
    let style = &run.sprms.as_slice()[0..style_length];
    assert(style@ =~= run.sprms@.take(style_length as int));
    apply_character_sprms(style)
}

} // verus!

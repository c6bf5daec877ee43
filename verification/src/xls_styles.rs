//! The SpreadsheetML styles part of a workbook: fonts, fills, borders,
//! number formats and cell formats resolved against their parent styles.

use vstd::prelude::*;

use crate::error::hex_digit;
use crate::text::{append_chars, append_decimal, append_escaped, append_str, char_from_u32, decimal, escaped, push_char};
use crate::xls_biff::{XlsBorder, XlsFill, XlsFont, XlsXf};
use crate::xls_workbook::WorkbookFormatting;

verus! {

broadcast use vstd::std_specs::btree::group_btree_axioms;

/// Entry `i` of the default BIFF8 palette (indices 8 to 63).
pub open spec fn default_palette(i: int) -> Seq<u8> {
    if i == 0 {
        seq![0u8, 0, 0]
    }
 else if i == 1 {
        seq![255u8, 255, 255]
    }
 else if i == 2 {
        seq![255u8, 0, 0]
    }
 else if i == 3 {
        seq![0u8, 255, 0]
    }
 else if i == 4 {
        seq![0u8, 0, 255]
    }
 else if i == 5 {
        seq![255u8, 255, 0]
    }
 else if i == 6 {
        seq![255u8, 0, 255]
    }
 else if i == 7 {
        seq![0u8, 255, 255]
    }
 else if i == 8 {
        seq![128u8, 0, 0]
    }
 else if i == 9 {
        seq![0u8, 128, 0]
    }
 else if i == 10 {
        seq![0u8, 0, 128]
    }
 else if i == 11 {
        seq![128u8, 128, 0]
    }
 else if i == 12 {
        seq![128u8, 0, 128]
    }
 else if i == 13 {
        seq![0u8, 128, 128]
    }
 else if i == 14 {
        seq![192u8, 192, 192]
    }
 else if i == 15 {
        seq![128u8, 128, 128]
    }
 else if i == 16 {
        seq![153u8, 153, 255]
    }
 else if i == 17 {
        seq![153u8, 51, 102]
    }
 else if i == 18 {
        seq![255u8, 255, 204]
    }
 else if i == 19 {
        seq![204u8, 255, 255]
    }
 else if i == 20 {
        seq![102u8, 0, 102]
    }
 else if i == 21 {
        seq![255u8, 128, 128]
    }
 else if i == 22 {
        seq![0u8, 102, 204]
    }
 else if i == 23 {
        seq![204u8, 204, 255]
    }
 else if i == 24 {
        seq![0u8, 0, 128]
    }
 else if i == 25 {
        seq![255u8, 0, 255]
    }
 else if i == 26 {
        seq![255u8, 255, 0]
    }
 else if i == 27 {
        seq![0u8, 255, 255]
    }
 else if i == 28 {
        seq![128u8, 0, 128]
    }
 else if i == 29 {
        seq![128u8, 0, 0]
    }
 else if i == 30 {
        seq![0u8, 128, 128]
    }
 else if i == 31 {
        seq![0u8, 0, 255]
    }
 else if i == 32 {
        seq![0u8, 204, 255]
    }
 else if i == 33 {
        seq![204u8, 255, 255]
    }
 else if i == 34 {
        seq![204u8, 255, 204]
    }
 else if i == 35 {
        seq![255u8, 255, 153]
    }
 else if i == 36 {
        seq![153u8, 204, 255]
    }
 else if i == 37 {
        seq![255u8, 153, 204]
    }
 else if i == 38 {
        seq![204u8, 153, 255]
    }
 else if i == 39 {
        seq![255u8, 204, 153]
    }
 else if i == 40 {
        seq![51u8, 102, 255]
    }
 else if i == 41 {
        seq![51u8, 204, 204]
    }
 else if i == 42 {
        seq![153u8, 204, 0]
    }
 else if i == 43 {
        seq![255u8, 204, 0]
    }
 else if i == 44 {
        seq![255u8, 153, 0]
    }
 else if i == 45 {
        seq![255u8, 102, 0]
    }
 else if i == 46 {
        seq![102u8, 102, 153]
    }
 else if i == 47 {
        seq![150u8, 150, 150]
    }
 else if i == 48 {
        seq![0u8, 51, 102]
    }
 else if i == 49 {
        seq![51u8, 153, 102]
    }
 else if i == 50 {
        seq![0u8, 51, 0]
    }
 else if i == 51 {
        seq![51u8, 51, 0]
    }
 else if i == 52 {
        seq![153u8, 51, 0]
    }
 else if i == 53 {
        seq![153u8, 51, 102]
    }
 else if i == 54 {
        seq![51u8, 51, 153]
    } else {
        seq![51u8, 51, 51]
    }
}

/// Entry `i` of the default BIFF8 palette.
fn default_palette_entry(i: usize) -> (res: [u8; 3])
    ensures
        res@ == default_palette(i as int),
{
    let rgb: [u8; 3] = if i == 0 {
        [0, 0, 0]
    }
 else if i == 1 {
        [255, 255, 255]
    }
 else if i == 2 {
        [255, 0, 0]
    }
 else if i == 3 {
        [0, 255, 0]
    }
 else if i == 4 {
        [0, 0, 255]
    }
 else if i == 5 {
        [255, 255, 0]
    }
 else if i == 6 {
        [255, 0, 255]
    }
 else if i == 7 {
        [0, 255, 255]
    }
 else if i == 8 {
        [128, 0, 0]
    }
 else if i == 9 {
        [0, 128, 0]
    }
 else if i == 10 {
        [0, 0, 128]
    }
 else if i == 11 {
        [128, 128, 0]
    }
 else if i == 12 {
        [128, 0, 128]
    }
 else if i == 13 {
        [0, 128, 128]
    }
 else if i == 14 {
        [192, 192, 192]
    }
 else if i == 15 {
        [128, 128, 128]
    }
 else if i == 16 {
        [153, 153, 255]
    }
 else if i == 17 {
        [153, 51, 102]
    }
 else if i == 18 {
        [255, 255, 204]
    }
 else if i == 19 {
        [204, 255, 255]
    }
 else if i == 20 {
        [102, 0, 102]
    }
 else if i == 21 {
        [255, 128, 128]
    }
 else if i == 22 {
        [0, 102, 204]
    }
 else if i == 23 {
        [204, 204, 255]
    }
 else if i == 24 {
        [0, 0, 128]
    }
 else if i == 25 {
        [255, 0, 255]
    }
 else if i == 26 {
        [255, 255, 0]
    }
 else if i == 27 {
        [0, 255, 255]
    }
 else if i == 28 {
        [128, 0, 128]
    }
 else if i == 29 {
        [128, 0, 0]
    }
 else if i == 30 {
        [0, 128, 128]
    }
 else if i == 31 {
        [0, 0, 255]
    }
 else if i == 32 {
        [0, 204, 255]
    }
 else if i == 33 {
        [204, 255, 255]
    }
 else if i == 34 {
        [204, 255, 204]
    }
 else if i == 35 {
        [255, 255, 153]
    }
 else if i == 36 {
        [153, 204, 255]
    }
 else if i == 37 {
        [255, 153, 204]
    }
 else if i == 38 {
        [204, 153, 255]
    }
 else if i == 39 {
        [255, 204, 153]
    }
 else if i == 40 {
        [51, 102, 255]
    }
 else if i == 41 {
        [51, 204, 204]
    }
 else if i == 42 {
        [153, 204, 0]
    }
 else if i == 43 {
        [255, 204, 0]
    }
 else if i == 44 {
        [255, 153, 0]
    }
 else if i == 45 {
        [255, 102, 0]
    }
 else if i == 46 {
        [102, 102, 153]
    }
 else if i == 47 {
        [150, 150, 150]
    }
 else if i == 48 {
        [0, 51, 102]
    }
 else if i == 49 {
        [51, 153, 102]
    }
 else if i == 50 {
        [0, 51, 0]
    }
 else if i == 51 {
        [51, 51, 0]
    }
 else if i == 52 {
        [153, 51, 0]
    }
 else if i == 53 {
        [153, 51, 102]
    }
 else if i == 54 {
        [51, 51, 153]
    } else {
        [51, 51, 51]
    };
    assert(rgb@ =~= default_palette(i as int));
    rgb
}

/// The RGB of color index `index`: a palette entry (the workbook's own or
/// the default) for 8 to 63, a fixed color for the first eight and the
/// system indices 64 and 65, none otherwise.
pub open spec fn color_rgb(palette: Seq<[u8; 3]>, index: u16) -> Option<Seq<u8>> {
    if 8 <= index && index <= 63 {
        let p = index - 8;
        if p < palette.len() {
            Some(palette[p]@)
        } else {
            Some(default_palette(p))
        }
    } else if index == 0 || index == 64 {
        Some(seq![0u8, 0, 0])
    } else if index == 1 || index == 65 {
        Some(seq![255u8, 255, 255])
    } else if index == 2 {
        Some(seq![255u8, 0, 0])
    } else if index == 3 {
        Some(seq![0u8, 255, 0])
    } else if index == 4 {
        Some(seq![0u8, 0, 255])
    } else if index == 5 {
        Some(seq![255u8, 255, 0])
    } else if index == 6 {
        Some(seq![255u8, 0, 255])
    } else if index == 7 {
        Some(seq![0u8, 255, 255])
    } else {
        None
    }
}

/// The two upper-case hexadecimal digits of `b`.
pub open spec fn hex2(b: u8) -> Seq<char> {
    seq![hex_digit((b / 16) as int), hex_digit((b % 16) as int)]
}

/// The `RRGGBB` text of an RGB triple.
pub open spec fn hex_rgb(c: Seq<u8>) -> Seq<char> {
    hex2(c[0]) + hex2(c[1]) + hex2(c[2])
}

/// The `RRGGBB` text of color index `index`, if it has a color.
pub open spec fn color_text(palette: Seq<[u8; 3]>, index: u16) -> Option<Seq<char>> {
    match color_rgb(palette, index) {
        Some(c) => Some(hex_rgb(c)),
        None => None,
    }
}

/// Appends the two hexadecimal digits of `b`.
fn append_hex2(out: &mut String, b: u8)
    ensures
        final(out)@ == old(out)@ + hex2(b),
{
    let high = b / 16;
    let low = b % 16;
    let high_code: u32 = if high < 10 {
        48 + high as u32
    } else {
        55 + high as u32
    };
    let low_code: u32 = if low < 10 {
        48 + low as u32
    } else {
        55 + low as u32
    };
    let ghost start = out@;
    if let Some(c) = char_from_u32(high_code) {
        push_char(out, c);
    }
    if let Some(c) = char_from_u32(low_code) {
        push_char(out, c);
    }
    assert(out@ =~= start + hex2(b));
}

/// The `RRGGBB` text of a color index.
pub fn color_hex(palette: &[[u8; 3]], index: u16) -> (res: Option<String>)
    ensures
        match color_text(palette@, index) {
            Some(t) => res matches Some(s) && s@ == t,
            None => res is None,
        },
{
    let rgb: [u8; 3] = if 8 <= index && index <= 63 {
        let p = (index - 8) as usize;
        if p < palette.len() {
            palette[p]
        } else {
            default_palette_entry(p)
        }
    } else if index == 0 || index == 64 {
        [0, 0, 0]
    } else if index == 1 || index == 65 {
        [255, 255, 255]
    } else if index == 2 {
        [255, 0, 0]
    } else if index == 3 {
        [0, 255, 0]
    } else if index == 4 {
        [0, 0, 255]
    } else if index == 5 {
        [255, 255, 0]
    } else if index == 6 {
        [255, 0, 255]
    } else if index == 7 {
        [0, 255, 255]
    } else {
        return None;
    };
    assert(rgb@ =~= color_rgb(palette@, index)->Some_0);
    let mut text = String::new();
    append_hex2(&mut text, rgb[0]);
    append_hex2(&mut text, rgb[1]);
    append_hex2(&mut text, rgb[2]);
    Some(text)
}

/// The OOXML fill pattern of a BIFF8 pattern code.
pub open spec fn pattern_text(v: u8) -> Seq<char> {
    if v == 0 {
        "none"@
    }
 else if v == 1 {
        "solid"@
    }
 else if v == 2 {
        "mediumGray"@
    }
 else if v == 3 {
        "darkGray"@
    }
 else if v == 4 {
        "lightGray"@
    }
 else if v == 5 {
        "darkHorizontal"@
    }
 else if v == 6 {
        "darkVertical"@
    }
 else if v == 7 {
        "darkDown"@
    }
 else if v == 8 {
        "darkUp"@
    }
 else if v == 9 {
        "darkGrid"@
    }
 else if v == 10 {
        "darkTrellis"@
    }
 else if v == 11 {
        "lightHorizontal"@
    }
 else if v == 12 {
        "lightVertical"@
    }
 else if v == 13 {
        "lightDown"@
    }
 else if v == 14 {
        "lightUp"@
    }
 else if v == 15 {
        "lightGrid"@
    }
 else if v == 16 {
        "lightTrellis"@
    }
 else if v == 17 {
        "gray125"@
    }
 else if v == 18 {
        "gray0625"@
    } else {
        "none"@
    }
}

/// The OOXML fill pattern of a BIFF8 pattern code.
pub fn pattern_name(v: u8) -> (res: &'static str)
    ensures
        res@ == pattern_text(v),
{
    if v == 0 {
        "none"
    }
 else if v == 1 {
        "solid"
    }
 else if v == 2 {
        "mediumGray"
    }
 else if v == 3 {
        "darkGray"
    }
 else if v == 4 {
        "lightGray"
    }
 else if v == 5 {
        "darkHorizontal"
    }
 else if v == 6 {
        "darkVertical"
    }
 else if v == 7 {
        "darkDown"
    }
 else if v == 8 {
        "darkUp"
    }
 else if v == 9 {
        "darkGrid"
    }
 else if v == 10 {
        "darkTrellis"
    }
 else if v == 11 {
        "lightHorizontal"
    }
 else if v == 12 {
        "lightVertical"
    }
 else if v == 13 {
        "lightDown"
    }
 else if v == 14 {
        "lightUp"
    }
 else if v == 15 {
        "lightGrid"
    }
 else if v == 16 {
        "lightTrellis"
    }
 else if v == 17 {
        "gray125"
    }
 else if v == 18 {
        "gray0625"
    } else {
        "none"
    }
}

/// The OOXML border style of a BIFF8 line style.
pub open spec fn border_text(v: u8) -> Seq<char> {
    if v == 0 {
        "none"@
    }
 else if v == 1 {
        "thin"@
    }
 else if v == 2 {
        "medium"@
    }
 else if v == 3 {
        "dashed"@
    }
 else if v == 4 {
        "dotted"@
    }
 else if v == 5 {
        "thick"@
    }
 else if v == 6 {
        "double"@
    }
 else if v == 7 {
        "hair"@
    }
 else if v == 8 {
        "mediumDashed"@
    }
 else if v == 9 {
        "dashDot"@
    }
 else if v == 10 {
        "mediumDashDot"@
    }
 else if v == 11 {
        "dashDotDot"@
    }
 else if v == 12 {
        "mediumDashDotDot"@
    }
 else if v == 13 {
        "slantDashDot"@
    } else {
        "thin"@
    }
}

/// The OOXML border style of a BIFF8 line style.
pub fn border_name(v: u8) -> (res: &'static str)
    ensures
        res@ == border_text(v),
{
    if v == 0 {
        "none"
    }
 else if v == 1 {
        "thin"
    }
 else if v == 2 {
        "medium"
    }
 else if v == 3 {
        "dashed"
    }
 else if v == 4 {
        "dotted"
    }
 else if v == 5 {
        "thick"
    }
 else if v == 6 {
        "double"
    }
 else if v == 7 {
        "hair"
    }
 else if v == 8 {
        "mediumDashed"
    }
 else if v == 9 {
        "dashDot"
    }
 else if v == 10 {
        "mediumDashDot"
    }
 else if v == 11 {
        "dashDotDot"
    }
 else if v == 12 {
        "mediumDashDotDot"
    }
 else if v == 13 {
        "slantDashDot"
    } else {
        "thin"
    }
}

/// The OOXML horizontal alignment of a BIFF8 code; none for general.
pub open spec fn horizontal_text(v: u8) -> Option<Seq<char>> {
    if v == 1 {
        Some("left"@)
    }
 else if v == 2 {
        Some("center"@)
    }
 else if v == 3 {
        Some("right"@)
    }
 else if v == 4 {
        Some("fill"@)
    }
 else if v == 5 {
        Some("justify"@)
    }
 else if v == 6 {
        Some("centerContinuous"@)
    }
 else if v == 7 {
        Some("distributed"@)
    } else {
        None
    }
}

/// Each BIFF8 horizontal alignment code from 1 to 7 has an alignment of its
/// own, which no other code shares: left for 1, center for 2, right for 3,
/// fill for 4, justify for 5, centerContinuous for 6, distributed for 7;
/// general (0) and the other codes have none.
pub proof fn lemma_horizontal_names(v: u8, w: u8)
    ensures
        horizontal_text(v) is Some <==> 1 <= v <= 7,
        (horizontal_text(v) is Some && v != w) ==> horizontal_text(v) != horizontal_text(w),
        horizontal_text(v) == Some("left"@) <==> v == 1,
        horizontal_text(v) == Some("center"@) <==> v == 2,
        horizontal_text(v) == Some("right"@) <==> v == 3,
        horizontal_text(v) == Some("fill"@) <==> v == 4,
        horizontal_text(v) == Some("justify"@) <==> v == 5,
        horizontal_text(v) == Some("centerContinuous"@) <==> v == 6,
        horizontal_text(v) == Some("distributed"@) <==> v == 7,
{
    reveal_strlit("left");
    reveal_strlit("center");
    reveal_strlit("right");
    reveal_strlit("fill");
    reveal_strlit("justify");
    reveal_strlit("centerContinuous");
    reveal_strlit("distributed");
    let t = horizontal_text(v);
    if t == Some("left"@) {
        assert(t.unwrap().len() == 4 && t.unwrap()[0] == 'l' && t.unwrap()[3] == 't');
    }
    if t == Some("center"@) {
        assert(t.unwrap().len() == 6 && t.unwrap()[0] == 'c' && t.unwrap()[5] == 'r');
    }
    if t == Some("right"@) {
        assert(t.unwrap().len() == 5 && t.unwrap()[0] == 'r' && t.unwrap()[4] == 't');
    }
    if t == Some("fill"@) {
        assert(t.unwrap().len() == 4 && t.unwrap()[0] == 'f' && t.unwrap()[3] == 'l');
    }
    if t == Some("justify"@) {
        assert(t.unwrap().len() == 7 && t.unwrap()[0] == 'j' && t.unwrap()[6] == 'y');
    }
    if t == Some("centerContinuous"@) {
        assert(t.unwrap().len() == 16 && t.unwrap()[0] == 'c' && t.unwrap()[15] == 's');
    }
    if t == Some("distributed"@) {
        assert(t.unwrap().len() == 11 && t.unwrap()[0] == 'd' && t.unwrap()[10] == 'd');
    }
    let u = horizontal_text(w);
    if u == Some("left"@) {
        assert(u.unwrap().len() == 4 && u.unwrap()[0] == 'l' && u.unwrap()[3] == 't');
    }
    if u == Some("center"@) {
        assert(u.unwrap().len() == 6 && u.unwrap()[0] == 'c' && u.unwrap()[5] == 'r');
    }
    if u == Some("right"@) {
        assert(u.unwrap().len() == 5 && u.unwrap()[0] == 'r' && u.unwrap()[4] == 't');
    }
    if u == Some("fill"@) {
        assert(u.unwrap().len() == 4 && u.unwrap()[0] == 'f' && u.unwrap()[3] == 'l');
    }
    if u == Some("justify"@) {
        assert(u.unwrap().len() == 7 && u.unwrap()[0] == 'j' && u.unwrap()[6] == 'y');
    }
    if u == Some("centerContinuous"@) {
        assert(u.unwrap().len() == 16 && u.unwrap()[0] == 'c' && u.unwrap()[15] == 's');
    }
    if u == Some("distributed"@) {
        assert(u.unwrap().len() == 11 && u.unwrap()[0] == 'd' && u.unwrap()[10] == 'd');
    }
}

/// The OOXML horizontal alignment of a BIFF8 code.
pub fn horizontal_name(v: u8) -> (res: Option<&'static str>)
    ensures
        match horizontal_text(v) {
            Some(t) => res matches Some(s) && s@ == t,
            None => res is None,
        },
{
    if v == 1 {
        Some("left")
    }
 else if v == 2 {
        Some("center")
    }
 else if v == 3 {
        Some("right")
    }
 else if v == 4 {
        Some("fill")
    }
 else if v == 5 {
        Some("justify")
    }
 else if v == 6 {
        Some("centerContinuous")
    }
 else if v == 7 {
        Some("distributed")
    } else {
        None
    }
}

/// The OOXML vertical alignment of a BIFF8 code.
pub open spec fn vertical_text(v: u8) -> Option<Seq<char>> {
    if v == 0 {
        Some("top"@)
    }
 else if v == 1 {
        Some("center"@)
    }
 else if v == 2 {
        Some("bottom"@)
    }
 else if v == 3 {
        Some("justify"@)
    }
 else if v == 4 {
        Some("distributed"@)
    } else {
        None
    }
}

/// The OOXML vertical alignment of a BIFF8 code.
pub fn vertical_name(v: u8) -> (res: Option<&'static str>)
    ensures
        match vertical_text(v) {
            Some(t) => res matches Some(s) && s@ == t,
            None => res is None,
        },
{
    if v == 0 {
        Some("top")
    }
 else if v == 1 {
        Some("center")
    }
 else if v == 2 {
        Some("bottom")
    }
 else if v == 3 {
        Some("justify")
    }
 else if v == 4 {
        Some("distributed")
    } else {
        None
    }
}

/// `xf` with the attribute groups it does not apply itself taken from its
/// parent style, when it is a cell XF whose parent exists.
pub open spec fn resolved_xf(xf: XlsXf, xfs: Seq<XlsXf>) -> XlsXf {
    if xf.is_style || xf.parent_style >= xfs.len() {
        xf
    } else {
        let p = xfs[xf.parent_style as int];
        let align = xf.used_attributes & 0x10 == 0;
        XlsXf {
            format_index: if xf.used_attributes & 0x04 == 0 {
                p.format_index
            } else {
                xf.format_index
            },
            font_index: if xf.used_attributes & 0x08 == 0 {
                p.font_index
            } else {
                xf.font_index
            },
            horizontal: if align {
                p.horizontal
            } else {
                xf.horizontal
            },
            vertical: if align {
                p.vertical
            } else {
                xf.vertical
            },
            wrap: if align {
                p.wrap
            } else {
                xf.wrap
            },
            rotation: if align {
                p.rotation
            } else {
                xf.rotation
            },
            indent: if align {
                p.indent
            } else {
                xf.indent
            },
            shrink_to_fit: if align {
                p.shrink_to_fit
            } else {
                xf.shrink_to_fit
            },
            reading_order: if align {
                p.reading_order
            } else {
                xf.reading_order
            },
            border: if xf.used_attributes & 0x20 == 0 {
                p.border
            } else {
                xf.border
            },
            fill: if xf.used_attributes & 0x40 == 0 {
                p.fill
            } else {
                xf.fill
            },
            ..xf
        }
    }
}

/// Every XF resolved against its parent.
pub open spec fn resolved_all(xfs: Seq<XlsXf>) -> Seq<XlsXf> {
    Seq::new(xfs.len(), |i: int| resolved_xf(xfs[i], xfs))
}

/// Resolves every XF against its parent style.
pub fn resolved_xfs(xfs: &[XlsXf]) -> (res: Vec<XlsXf>)
    ensures
        res@ == resolved_all(xfs@),
{
    let mut out: Vec<XlsXf> = Vec::new();
    let mut i: usize = 0;
    while i < xfs.len()
        invariant
            i <= xfs@.len(),
            out@ =~= resolved_all(xfs@).take(i as int),
        decreases xfs@.len() - i,
    {
        let xf = xfs[i];
        let mut resolved = xf;
        if !xf.is_style && (xf.parent_style as usize) < xfs.len() {
            let parent = xfs[xf.parent_style as usize];
            if xf.used_attributes & 0x04 == 0 {
                resolved.format_index = parent.format_index;
            }
            if xf.used_attributes & 0x08 == 0 {
                resolved.font_index = parent.font_index;
            }
            if xf.used_attributes & 0x10 == 0 {
                resolved.horizontal = parent.horizontal;
                resolved.vertical = parent.vertical;
                resolved.wrap = parent.wrap;
                resolved.rotation = parent.rotation;
                resolved.indent = parent.indent;
                resolved.shrink_to_fit = parent.shrink_to_fit;
                resolved.reading_order = parent.reading_order;
            }
            if xf.used_attributes & 0x20 == 0 {
                resolved.border = parent.border;
            }
            if xf.used_attributes & 0x40 == 0 {
                resolved.fill = parent.fill;
            }
        }
        assert(resolved == resolved_xf(xf, xfs@));
        out.push(resolved);
        i = i + 1;
    }
    out
}

/// The no-fill and `gray125` fills every styles part starts with.
pub open spec fn base_fills() -> Seq<XlsFill> {
    seq![XlsFill { pattern: 0, foreground: 0, background: 0 }, XlsFill { pattern: 17, foreground: 0, background: 0 }]
}

/// The distinct fills of the first `k` XFs after the base fills, in order
/// of first use.
pub open spec fn fills_fold(xs: Seq<XlsXf>, k: int) -> Seq<XlsFill>
    decreases k,
{
    if k <= 0 {
        base_fills()
    } else {
        let f = fills_fold(xs, k - 1);
        if f.contains(xs[k - 1].fill) {
            f
        } else {
            f.push(xs[k - 1].fill)
        }
    }
}

/// The empty border.
pub open spec fn no_border() -> XlsBorder {
    XlsBorder {
        left_style: 0,
        right_style: 0,
        top_style: 0,
        bottom_style: 0,
        left_color: 0,
        right_color: 0,
        top_color: 0,
        bottom_color: 0,
    }
}

/// The distinct borders of the first `k` XFs after the empty border, in
/// order of first use.
pub open spec fn borders_fold(xs: Seq<XlsXf>, k: int) -> Seq<XlsBorder>
    decreases k,
{
    if k <= 0 {
        seq![no_border()]
    } else {
        let b = borders_fold(xs, k - 1);
        if b.contains(xs[k - 1].border) {
            b
        } else {
            b.push(xs[k - 1].border)
        }
    }
}

/// Whether `fills` holds `f`.
fn has_fill(fills: &Vec<XlsFill>, f: XlsFill) -> (res: bool)
    ensures
        res == fills@.contains(f),
{
    let mut i: usize = 0;
    while i < fills.len()
        invariant
            i <= fills@.len(),
            forall|j: int| 0 <= j < i ==> fills@[j] != f,
        decreases fills@.len() - i,
    {
        if fills[i] == f {
            assert(fills@[i as int] == f);
            return true;
        }
        i = i + 1;
    }
    false
}

/// Whether `borders` holds `b`.
fn has_border(borders: &Vec<XlsBorder>, b: XlsBorder) -> (res: bool)
    ensures
        res == borders@.contains(b),
{
    let mut i: usize = 0;
    while i < borders.len()
        invariant
            i <= borders@.len(),
            forall|j: int| 0 <= j < i ==> borders@[j] != b,
        decreases borders@.len() - i,
    {
        if borders[i] == b {
            assert(borders@[i as int] == b);
            return true;
        }
        i = i + 1;
    }
    false
}

/// The distinct fills of `xfs` after the base fills.
pub fn unique_fills(xfs: &[XlsXf]) -> (res: Vec<XlsFill>)
    ensures
        res@ == fills_fold(xfs@, xfs@.len() as int),
{
    let mut fills: Vec<XlsFill> = Vec::new();
    fills.push(XlsFill { pattern: 0, foreground: 0, background: 0 });
    fills.push(XlsFill { pattern: 17, foreground: 0, background: 0 });
    assert(fills@ =~= base_fills());
    let mut i: usize = 0;
    while i < xfs.len()
        invariant
            i <= xfs@.len(),
            fills@ == fills_fold(xfs@, i as int),
        decreases xfs@.len() - i,
    {
        let f = xfs[i].fill;
        if !has_fill(&fills, f) {
            fills.push(f);
        }
        i = i + 1;
    }
    fills
}

/// The distinct borders of `xfs` after the empty border.
pub fn unique_borders(xfs: &[XlsXf]) -> (res: Vec<XlsBorder>)
    ensures
        res@ == borders_fold(xfs@, xfs@.len() as int),
{
    let mut borders: Vec<XlsBorder> = Vec::new();
    borders.push(
        XlsBorder {
            left_style: 0,
            right_style: 0,
            top_style: 0,
            bottom_style: 0,
            left_color: 0,
            right_color: 0,
            top_color: 0,
            bottom_color: 0,
        },
    );
    assert(borders@ =~= seq![no_border()]);
    let mut i: usize = 0;
    while i < xfs.len()
        invariant
            i <= xfs@.len(),
            borders@ == borders_fold(xfs@, i as int),
        decreases xfs@.len() - i,
    {
        let b = xfs[i].border;
        if !has_border(&borders, b) {
            borders.push(b);
        }
        i = i + 1;
    }
    borders
}

/// The first position of `x` in `s` from `i`, or 0 when it does not occur.
pub open spec fn position_from<T>(s: Seq<T>, x: T, i: int) -> int
    decreases s.len() - i,
{
    if i < 0 || i >= s.len() {
        0
    } else if s[i] == x {
        i
    } else {
        position_from(s, x, i + 1)
    }
}

/// The first position of a fill, or 0.
fn fill_position(fills: &Vec<XlsFill>, f: XlsFill) -> (res: usize)
    ensures
        res == position_from(fills@, f, 0),
{
    let mut i: usize = 0;
    while i < fills.len()
        invariant
            i <= fills@.len(),
            position_from(fills@, f, 0) == position_from(fills@, f, i as int),
        decreases fills@.len() - i,
    {
        if fills[i] == f {
            return i;
        }
        i = i + 1;
    }
    0
}

/// The first position of a border, or 0.
fn border_position(borders: &Vec<XlsBorder>, b: XlsBorder) -> (res: usize)
    ensures
        res == position_from(borders@, b, 0),
{
    let mut i: usize = 0;
    while i < borders.len()
        invariant
            i <= borders@.len(),
            position_from(borders@, b, 0) == position_from(borders@, b, i as int),
        decreases borders@.len() - i,
    {
        if borders[i] == b {
            return i;
        }
        i = i + 1;
    }
    0
}

/// `t` when `b`, else nothing.
pub open spec fn when(b: bool, t: Seq<char>) -> Seq<char> {
    if b {
        t
    } else {
        seq![]
    }
}

/// The two decimal digits of `n` (below 100).
pub open spec fn two_digits(n: int) -> Seq<char> {
    seq![(48 + n / 10) as char, (48 + n % 10) as char]
}

/// A twip value in points with two decimals, as `h / 20` prints.
pub open spec fn points_text(h: u16) -> Seq<char> {
    decimal((h / 20) as nat) + seq!['.'] + two_digits(((h % 20) * 5) as int)
}

/// Appends a twip value in points with two decimals.
pub fn append_points(out: &mut String, h: u16)
    ensures
        final(out)@ == old(out)@ + points_text(h),
{
    let ghost start = out@;
    append_decimal(out, (h / 20) as u64);
    push_char(out, '.');
    let fraction = (h % 20) * 5;
    let tens = match char_from_u32(48 + (fraction / 10) as u32) {
        Some(c) => c,
        None => '0',
    };
    let ones = match char_from_u32(48 + (fraction % 10) as u32) {
        Some(c) => c,
        None => '0',
    };
    push_char(out, tens);
    push_char(out, ones);
    assert(out@ =~= start + points_text(h));
}

/// The OOXML underline element of a BIFF8 underline code.
pub open spec fn underline_text(u: u8) -> Seq<char> {
    if u == 1 {
        "<u/>"@
    } else if u == 2 {
        "<u val=\"double\"/>"@
    } else if u == 0x21 {
        "<u val=\"singleAccounting\"/>"@
    } else if u == 0x22 {
        "<u val=\"doubleAccounting\"/>"@
    } else {
        seq![]
    }
}

/// The element `<NAME rgb="FFRRGGBB"/>` for color index `index`, when it
/// has a color.
pub open spec fn color_element(palette: Seq<[u8; 3]>, name: Seq<char>, index: u16) -> Seq<char> {
    match color_text(palette, index) {
        Some(c) => "<"@ + name + " rgb=\"FF"@ + c + "\"/>"@,
        None => seq![],
    }
}

/// Appends the color element of a color index, if it has a color.
fn append_color_element(out: &mut String, palette: &[[u8; 3]], name: &str, index: u16)
    ensures
        final(out)@ == old(out)@ + color_element(palette@, name@, index),
{
    let ghost start = out@;
    if let Some(color) = color_hex(palette, index) {
        append_str(out, "<");
        append_str(out, name);
        append_str(out, " rgb=\"FF");
        append_str(out, color.as_str());
        append_str(out, "\"/>");
    }
    assert(out@ =~= start + color_element(palette@, name@, index));
}

/// The start of a `font` element: weight, slant, strike-through and
/// underline.
pub open spec fn font_head(f: XlsFont) -> Seq<char> {
    "<font>"@ + when(f.weight >= 700, "<b/>"@) + when(f.italic, "<i/>"@) + when(f.strike, "<strike/>"@)
        + underline_text(f.underline)
}

/// The end of a `font` element: family and character set.
pub open spec fn font_tail(f: XlsFont) -> Seq<char> {
    when(f.family != 0, "<family val=\""@ + decimal(f.family as nat) + "\"/>"@) + when(
        f.charset != 0,
        "<charset val=\""@ + decimal(f.charset as nat) + "\"/>"@,
    ) + "</font>"@
}

/// The `font` element of a source font.
pub open spec fn font_text(f: XlsFont, palette: Seq<[u8; 3]>) -> Seq<char> {
    font_head(f) + ("<sz val=\""@ + points_text(f.height_twips) + "\"/>"@) + color_element(
        palette,
        "color"@,
        f.color_index,
    ) + ("<name val=\""@ + escaped(f.name@) + "\"/>"@) + font_tail(f)
}

/// How many fonts the styles part lists for `n` source fonts: one default
/// when there are none, and a placeholder at index 4 (which BIFF8 never
/// uses) when there are more than four.
pub open spec fn font_count(n: int) -> int {
    if n == 0 {
        1
    } else if n > 4 {
        n + 1
    } else {
        n
    }
}

/// Font `index` of the styles part.
pub open spec fn font_slot_text(fonts: Seq<XlsFont>, palette: Seq<[u8; 3]>, index: int) -> Seq<char> {
    if index == 4 && fonts.len() > 4 {
        "<font><sz val=\"10\"/><name val=\"Arial\"/></font>"@
    } else {
        let source = if index < 4 {
            index
        } else {
            index - 1
        };
        if source < fonts.len() {
            font_text(fonts[source], palette)
        } else {
            "<font><sz val=\"11\"/><name val=\"Calibri\"/><family val=\"2\"/></font>"@
        }
    }
}

/// The first `k` fonts of the styles part.
pub open spec fn fonts_fold(fonts: Seq<XlsFont>, palette: Seq<[u8; 3]>, k: int) -> Seq<char>
    decreases k,
{
    if k <= 0 {
        seq![]
    } else {
        fonts_fold(fonts, palette, k - 1) + font_slot_text(fonts, palette, k - 1)
    }
}

/// The `fonts` element.
pub open spec fn fonts_part(fonts: Seq<XlsFont>, palette: Seq<[u8; 3]>) -> Seq<char> {
    let n = font_count(fonts.len() as int);
    "<fonts count=\""@ + decimal(n as nat) + "\">"@ + fonts_fold(fonts, palette, n) + "</fonts>"@
}

/// Appends the start of a `font` element.
fn append_font_head(out: &mut String, f: &XlsFont)
    ensures
        final(out)@ == old(out)@ + font_head(*f),
{
    let ghost start = out@;
    append_str(out, "<font>");
    if f.weight >= 700 {
        append_str(out, "<b/>");
    }
    if f.italic {
        append_str(out, "<i/>");
    }
    if f.strike {
        append_str(out, "<strike/>");
    }
    if f.underline == 1 {
        append_str(out, "<u/>");
    } else if f.underline == 2 {
        append_str(out, "<u val=\"double\"/>");
    } else if f.underline == 0x21 {
        append_str(out, "<u val=\"singleAccounting\"/>");
    } else if f.underline == 0x22 {
        append_str(out, "<u val=\"doubleAccounting\"/>");
    }
    assert(out@ =~= start + font_head(*f));
}

/// Appends the end of a `font` element.
fn append_font_tail(out: &mut String, f: &XlsFont)
    ensures
        final(out)@ == old(out)@ + font_tail(*f),
{
    let ghost start = out@;
    if f.family != 0 {
        append_str(out, "<family val=\"");
        append_decimal(out, f.family as u64);
        append_str(out, "\"/>");
    }
    let ghost middle = out@;
    if f.charset != 0 {
        append_str(out, "<charset val=\"");
        append_decimal(out, f.charset as u64);
        append_str(out, "\"/>");
    }
    append_str(out, "</font>");
    assert(out@ =~= start + font_tail(*f));
}

/// Appends the `font` element of a source font.
fn append_font(out: &mut String, f: &XlsFont, palette: &[[u8; 3]])
    ensures
        final(out)@ == old(out)@ + font_text(*f, palette@),
{
    let ghost start = out@;
    append_font_head(out, f);
    let ghost a = out@;
    append_str(out, "<sz val=\"");
    append_points(out, f.height_twips);
    append_str(out, "\"/>");
    assert(out@ =~= a + ("<sz val=\""@ + points_text(f.height_twips) + "\"/>"@));
    let ghost b = out@;
    append_color_element(out, palette, "color", f.color_index);
    let ghost c = out@;
    append_str(out, "<name val=\"");
    append_escaped(out, f.name.as_str());
    append_str(out, "\"/>");
    assert(out@ =~= c + ("<name val=\""@ + escaped(f.name@) + "\"/>"@));
    append_font_tail(out, f);
    assert(out@ =~= start + font_text(*f, palette@));
}

/// Appends the `fonts` element.
fn append_fonts(out: &mut String, fonts: &Vec<XlsFont>, palette: &[[u8; 3]])
    requires
        fonts@.len() < usize::MAX,
    ensures
        final(out)@ == old(out)@ + fonts_part(fonts@, palette@),
{
    let ghost start = out@;
    let n = fonts.len();
    let count: usize = if n == 0 {
        1
    } else if n > 4 {
        n + 1
    } else {
        n
    };
    append_str(out, "<fonts count=\"");
    append_decimal(out, count as u64);
    append_str(out, "\">");
    let ghost head = out@;
    let mut index: usize = 0;
    while index < count
        invariant
            n == fonts@.len(),
            count == font_count(n as int),
            index <= count,
            out@ == head + fonts_fold(fonts@, palette@, index as int),
        decreases count - index,
    {
        let ghost before = out@;
        if index == 4 && n > 4 {
            append_str(out, "<font><sz val=\"10\"/><name val=\"Arial\"/></font>");
        } else {
            let source = if index < 4 {
                index
            } else {
                index - 1
            };
            if source < n {
                append_font(out, &fonts[source], palette);
            } else {
                append_str(out, "<font><sz val=\"11\"/><name val=\"Calibri\"/><family val=\"2\"/></font>");
            }
        }
        assert(out@ =~= head + fonts_fold(fonts@, palette@, index + 1));
        index = index + 1;
    }
    append_str(out, "</fonts>");
    assert(out@ =~= start + fonts_part(fonts@, palette@));
}

/// The `fill` element of a fill.
pub open spec fn fill_text(fill: XlsFill, palette: Seq<[u8; 3]>) -> Seq<char> {
    "<fill><patternFill patternType=\""@ + pattern_text(fill.pattern) + "\">"@ + when(
        fill.pattern != 0,
        color_element(palette, "fgColor"@, fill.foreground as u16) + color_element(
            palette,
            "bgColor"@,
            fill.background as u16,
        ),
    ) + "</patternFill></fill>"@
}

/// Appends the `fill` element of a fill.
fn append_fill(out: &mut String, fill: XlsFill, palette: &[[u8; 3]])
    ensures
        final(out)@ == old(out)@ + fill_text(fill, palette@),
{
    let ghost start = out@;
    append_str(out, "<fill><patternFill patternType=\"");
    append_str(out, pattern_name(fill.pattern));
    append_str(out, "\">");
    let ghost a = out@;
    if fill.pattern != 0 {
        append_color_element(out, palette, "fgColor", fill.foreground as u16);
        append_color_element(out, palette, "bgColor", fill.background as u16);
    }
    append_str(out, "</patternFill></fill>");
    assert(out@ =~= start + fill_text(fill, palette@));
}

/// One side of a `border` element.
pub open spec fn side_text(name: Seq<char>, style: u8, color: u8, palette: Seq<[u8; 3]>) -> Seq<char> {
    let color_part = match color_text(palette, color as u16) {
        Some(c) => "<color rgb=\"FF"@ + c + "\"/>"@,
        None => "<color auto=\"1\"/>"@,
    };
    if style == 0 {
        "<"@ + name + "/>"@
    } else {
        "<"@ + name + " style=\""@ + border_text(style) + "\">"@ + color_part + "</"@ + name + ">"@
    }
}

/// Appends one side of a `border` element.
fn append_side(out: &mut String, name: &str, style: u8, color: u8, palette: &[[u8; 3]])
    ensures
        final(out)@ == old(out)@ + side_text(name@, style, color, palette@),
{
    let ghost start = out@;
    if style == 0 {
        append_str(out, "<");
        append_str(out, name);
        append_str(out, "/>");
        assert(out@ =~= start + side_text(name@, style, color, palette@));
        return;
    }
    append_str(out, "<");
    append_str(out, name);
    append_str(out, " style=\"");
    append_str(out, border_name(style));
    append_str(out, "\">");
    let ghost a = out@;
    match color_hex(palette, color as u16) {
        Some(c) => {
            append_str(out, "<color rgb=\"FF");
            append_str(out, c.as_str());
            append_str(out, "\"/>");
        },
        None => {
            append_str(out, "<color auto=\"1\"/>");
        },
    }
    append_str(out, "</");
    append_str(out, name);
    append_str(out, ">");
    assert(out@ =~= start + side_text(name@, style, color, palette@));
}

/// The `border` element of a border.
pub open spec fn border_element(b: XlsBorder, palette: Seq<[u8; 3]>) -> Seq<char> {
    "<border>"@ + side_text("left"@, b.left_style, b.left_color, palette) + side_text(
        "right"@,
        b.right_style,
        b.right_color,
        palette,
    ) + side_text("top"@, b.top_style, b.top_color, palette) + side_text(
        "bottom"@,
        b.bottom_style,
        b.bottom_color,
        palette,
    ) + "<diagonal/></border>"@
}

/// Appends the `border` element of a border.
fn append_border(out: &mut String, b: XlsBorder, palette: &[[u8; 3]])
    ensures
        final(out)@ == old(out)@ + border_element(b, palette@),
{
    let ghost start = out@;
    append_str(out, "<border>");
    append_side(out, "left", b.left_style, b.left_color, palette);
    append_side(out, "right", b.right_style, b.right_color, palette);
    append_side(out, "top", b.top_style, b.top_color, palette);
    append_side(out, "bottom", b.bottom_style, b.bottom_color, palette);
    append_str(out, "<diagonal/></border>");
    assert(out@ =~= start + border_element(b, palette@));
}

/// The first `k` fill elements.
pub open spec fn fill_list(fills: Seq<XlsFill>, palette: Seq<[u8; 3]>, k: int) -> Seq<char>
    decreases k,
{
    if k <= 0 {
        seq![]
    } else {
        fill_list(fills, palette, k - 1) + fill_text(fills[k - 1], palette)
    }
}

/// The first `k` border elements.
pub open spec fn border_list(borders: Seq<XlsBorder>, palette: Seq<[u8; 3]>, k: int) -> Seq<char>
    decreases k,
{
    if k <= 0 {
        seq![]
    } else {
        border_list(borders, palette, k - 1) + border_element(borders[k - 1], palette)
    }
}

/// Appends the `fills` element.
fn append_fills(out: &mut String, fills: &Vec<XlsFill>, palette: &[[u8; 3]])
    ensures
        final(out)@ == old(out)@ + fills_part(fills@, palette@),
{
    let ghost start = out@;
    append_str(out, "<fills count=\"");
    append_decimal(out, fills.len() as u64);
    append_str(out, "\">");
    let ghost head = out@;
    let mut i: usize = 0;
    while i < fills.len()
        invariant
            i <= fills@.len(),
            out@ == head + fill_list(fills@, palette@, i as int),
        decreases fills@.len() - i,
    {
        append_fill(out, fills[i], palette);
        assert(out@ =~= head + fill_list(fills@, palette@, i + 1));
        i = i + 1;
    }
    append_str(out, "</fills>");
    assert(out@ =~= start + fills_part(fills@, palette@));
}

/// Appends the `borders` element.
fn append_borders(out: &mut String, borders: &Vec<XlsBorder>, palette: &[[u8; 3]])
    ensures
        final(out)@ == old(out)@ + borders_part(borders@, palette@),
{
    let ghost start = out@;
    append_str(out, "<borders count=\"");
    append_decimal(out, borders.len() as u64);
    append_str(out, "\">");
    let ghost head = out@;
    let mut i: usize = 0;
    while i < borders.len()
        invariant
            i <= borders@.len(),
            out@ == head + border_list(borders@, palette@, i as int),
        decreases borders@.len() - i,
    {
        append_border(out, borders[i], palette);
        assert(out@ =~= head + border_list(borders@, palette@, i + 1));
        i = i + 1;
    }
    append_str(out, "</borders>");
    assert(out@ =~= start + borders_part(borders@, palette@));
}

/// Whether an XF carries alignment beyond the defaults (general,
/// bottom-aligned, no wrap, rotation, indent, shrink or reading order).
pub open spec fn has_alignment(xf: XlsXf) -> bool {
    xf.horizontal != 0 || xf.vertical != 2 || xf.wrap || xf.rotation != 0 || xf.indent != 0 || xf.shrink_to_fit
        || xf.reading_order != 0
}

/// The OOXML text rotation of a BIFF8 rotation: counter-clockwise degrees
/// as they are, clockwise ones negated, stacked text as 255.
pub open spec fn rotation_text(r: u8) -> Seq<char> {
    if r <= 90 {
        decimal(r as nat)
    } else if r <= 180 {
        seq!['-'] + decimal((r - 90) as nat)
    } else {
        "255"@
    }
}

/// The attributes of an `alignment` element.
pub open spec fn alignment_attributes(xf: XlsXf) -> Seq<char> {
    placement_attributes(xf) + flow_attributes(xf)
}

/// The horizontal and vertical alignment attributes.
pub open spec fn placement_attributes(xf: XlsXf) -> Seq<char> {
    let horizontal = match horizontal_text(xf.horizontal) {
        Some(v) => " horizontal=\""@ + v + "\""@,
        None => seq![],
    };
    let vertical = match vertical_text(xf.vertical) {
        Some(v) => " vertical=\""@ + v + "\""@,
        None => seq![],
    };
    horizontal + vertical
}

/// The wrap, shrink, indent, rotation and reading-order attributes.
pub open spec fn flow_attributes(xf: XlsXf) -> Seq<char> {
    when(xf.wrap, " wrapText=\"1\""@) + when(xf.shrink_to_fit, " shrinkToFit=\"1\""@) + indent_attribute(xf)
        + rotation_attribute(xf) + order_attribute(xf)
}

/// The indent attribute, when there is an indent.
pub open spec fn indent_attribute(xf: XlsXf) -> Seq<char> {
    when(xf.indent != 0, " indent=\""@ + decimal(xf.indent as nat) + "\""@)
}

/// The text rotation attribute, when the text is rotated.
pub open spec fn rotation_attribute(xf: XlsXf) -> Seq<char> {
    when(xf.rotation != 0, " textRotation=\""@ + rotation_text(xf.rotation) + "\""@)
}

/// The reading order attribute, for left-to-right or right-to-left.
pub open spec fn order_attribute(xf: XlsXf) -> Seq<char> {
    if xf.reading_order == 1 {
        " readingOrder=\"1\""@
    } else if xf.reading_order == 2 {
        " readingOrder=\"2\""@
    } else {
        seq![]
    }
}

/// A source font index the styles part lists, else font 0.
pub open spec fn valid_font_id(font_total: int, source: u16) -> u16 {
    if source < font_total {
        source
    } else {
        0
    }
}

/// The `xf` element of a resolved cell XF.
pub open spec fn xf_text(xf: XlsXf, fills: Seq<XlsFill>, borders: Seq<XlsBorder>, font_total: int) -> Seq<char> {
    let ending = if has_alignment(xf) {
        "><alignment"@ + alignment_attributes(xf) + "/></xf>"@
    } else {
        "/>"@
    };
    "<xf numFmtId=\""@ + decimal(xf.format_index as nat) + "\" fontId=\""@ + decimal(
        valid_font_id(font_total, xf.font_index) as nat,
    ) + "\" fillId=\""@ + decimal(position_from(fills, xf.fill, 0) as nat) + "\" borderId=\""@ + decimal(
        position_from(borders, xf.border, 0) as nat,
    )
        + "\" xfId=\"0\" applyNumberFormat=\"1\" applyFont=\"1\" applyFill=\"1\" applyBorder=\"1\" applyAlignment=\"1\""@
        + ending
}

/// Appends the horizontal and vertical alignment attributes.
fn append_placement_attributes(out: &mut String, xf: XlsXf)
    ensures
        final(out)@ == old(out)@ + placement_attributes(xf),
{
    let ghost start = out@;
    if let Some(value) = horizontal_name(xf.horizontal) {
        append_str(out, " horizontal=\"");
        append_str(out, value);
        append_str(out, "\"");
    }
    let ghost a = out@;
    if let Some(value) = vertical_name(xf.vertical) {
        append_str(out, " vertical=\"");
        append_str(out, value);
        append_str(out, "\"");
    }
    assert(out@ =~= start + placement_attributes(xf));
}

/// Appends the text rotation attribute value.
fn append_rotation(out: &mut String, r: u8)
    ensures
        final(out)@ == old(out)@ + rotation_text(r),
{
    let ghost start = out@;
    if r <= 90 {
        append_decimal(out, r as u64);
    } else if r <= 180 {
        push_char(out, '-');
        append_decimal(out, (r - 90) as u64);
    } else {
        append_str(out, "255");
    }
    assert(out@ =~= start + rotation_text(r));
}

/// Appends the indent attribute, when there is an indent.
fn append_indent_attribute(out: &mut String, xf: XlsXf)
    ensures
        final(out)@ == old(out)@ + indent_attribute(xf),
{
    let ghost start = out@;
    if xf.indent != 0 {
        append_str(out, " indent=\"");
        append_decimal(out, xf.indent as u64);
        append_str(out, "\"");
    }
    assert(out@ =~= start + indent_attribute(xf));
}

/// Appends the text rotation attribute, when the text is rotated.
fn append_rotation_attribute(out: &mut String, xf: XlsXf)
    ensures
        final(out)@ == old(out)@ + rotation_attribute(xf),
{
    let ghost start = out@;
    if xf.rotation != 0 {
        append_str(out, " textRotation=\"");
        append_rotation(out, xf.rotation);
        append_str(out, "\"");
    }
    assert(out@ =~= start + rotation_attribute(xf));
}

/// Appends the wrap, shrink, indent, rotation and reading-order attributes.
fn append_flow_attributes(out: &mut String, xf: XlsXf)
    ensures
        final(out)@ == old(out)@ + flow_attributes(xf),
{
    let ghost start = out@;
    if xf.wrap {
        append_str(out, " wrapText=\"1\"");
    }
    if xf.shrink_to_fit {
        append_str(out, " shrinkToFit=\"1\"");
    }
    let ghost c = out@;
    assert(c =~= start + when(xf.wrap, " wrapText=\"1\""@) + when(xf.shrink_to_fit, " shrinkToFit=\"1\""@));
    append_indent_attribute(out, xf);
    append_rotation_attribute(out, xf);
    let ghost e = out@;
    if xf.reading_order == 1 {
        append_str(out, " readingOrder=\"1\"");
    } else if xf.reading_order == 2 {
        append_str(out, " readingOrder=\"2\"");
    }
    assert(out@ =~= e + order_attribute(xf));
    assert(out@ =~= start + flow_attributes(xf));
}

/// Appends the attributes of an `alignment` element.
fn append_alignment_attributes(out: &mut String, xf: XlsXf)
    ensures
        final(out)@ == old(out)@ + alignment_attributes(xf),
{
    let ghost start = out@;
    append_placement_attributes(out, xf);
    append_flow_attributes(out, xf);
    assert(out@ =~= start + alignment_attributes(xf));
}

/// Appends the `xf` element of a resolved cell XF.
fn append_xf(out: &mut String, xf: XlsXf, fills: &Vec<XlsFill>, borders: &Vec<XlsBorder>, font_total: usize)
    ensures
        final(out)@ == old(out)@ + xf_text(xf, fills@, borders@, font_total as int),
{
    let ghost start = out@;
    append_str(out, "<xf numFmtId=\"");
    append_decimal(out, xf.format_index as u64);
    append_str(out, "\" fontId=\"");
    let font_id: u16 = if (xf.font_index as usize) < font_total {
        xf.font_index
    } else {
        0
    };
    append_decimal(out, font_id as u64);
    append_str(out, "\" fillId=\"");
    append_decimal(out, fill_position(fills, xf.fill) as u64);
    append_str(out, "\" borderId=\"");
    append_decimal(out, border_position(borders, xf.border) as u64);
    append_str(
        out,
        "\" xfId=\"0\" applyNumberFormat=\"1\" applyFont=\"1\" applyFill=\"1\" applyBorder=\"1\" applyAlignment=\"1\"",
    );
    let ghost a = out@;
    if xf.horizontal != 0 || xf.vertical != 2 || xf.wrap || xf.rotation != 0 || xf.indent != 0 || xf.shrink_to_fit
        || xf.reading_order != 0 {
        append_str(out, "><alignment");
        append_alignment_attributes(out, xf);
        append_str(out, "/></xf>");
    } else {
        append_str(out, "/>");
    }
    assert(out@ =~= start + xf_text(xf, fills@, borders@, font_total as int));
}

/// The first `k` `xf` elements.
pub open spec fn xf_list(
    xfs: Seq<XlsXf>,
    fills: Seq<XlsFill>,
    borders: Seq<XlsBorder>,
    font_total: int,
    k: int,
) -> Seq<char>
    decreases k,
{
    if k <= 0 {
        seq![]
    } else {
        xf_list(xfs, fills, borders, font_total, k - 1) + xf_text(xfs[k - 1], fills, borders, font_total)
    }
}

/// The `numFmt` elements of the custom formats with ids below `k`, in id
/// order.
pub open spec fn formats_fold(formats: Map<u16, String>, k: int) -> Seq<char>
    decreases k,
{
    if k <= 0 {
        seq![]
    } else {
        let entry = if formats.contains_key((k - 1) as u16) {
            "<numFmt numFmtId=\""@ + decimal((k - 1) as nat) + "\" formatCode=\""@ + escaped(
                formats[(k - 1) as u16]@,
            ) + "\"/>"@
        } else {
            seq![]
        };
        formats_fold(formats, k - 1) + entry
    }
}

/// The `numFmts` element, absent without custom formats.
pub open spec fn formats_part(formats: Map<u16, String>) -> Seq<char> {
    if formats.len() == 0 {
        seq![]
    } else {
        "<numFmts count=\""@ + decimal(formats.len()) + "\">"@ + formats_fold(formats, 65536) + "</numFmts>"@
    }
}

/// Appends the `numFmts` element.
fn append_formats(out: &mut String, formats: &std::collections::BTreeMap<u16, String>)
    ensures
        final(out)@ == old(out)@ + formats_part(formats@),
{
    let ghost start = out@;
    let count = formats.len();
    if count == 0 {
        assert(out@ =~= start + formats_part(formats@));
        return;
    }
    append_str(out, "<numFmts count=\"");
    append_decimal(out, count as u64);
    append_str(out, "\">");
    let ghost head = out@;
    let mut id: u32 = 0;
    while id < 65536
        invariant
            id <= 65536,
            out@ == head + formats_fold(formats@, id as int),
        decreases 65536 - id,
    {
        let key = id as u16;
        if let Some(code) = formats.get(&key) {
            append_str(out, "<numFmt numFmtId=\"");
            append_decimal(out, id as u64);
            append_str(out, "\" formatCode=\"");
            append_escaped(out, code.as_str());
            append_str(out, "\"/>");
        }
        assert(out@ =~= head + formats_fold(formats@, id + 1));
        id = id + 1;
    }
    append_str(out, "</numFmts>");
    assert(out@ =~= start + formats_part(formats@));
}

/// The XML declaration and `styleSheet` start tag.
pub open spec fn styles_header() -> Seq<char> {
    "<?xml version=\"1.0\" encoding=\"UTF-8\" standalone=\"yes\"?><styleSheet xmlns=\"http://schemas.openxmlformats.org/spreadsheetml/2006/main\">"@
}

/// The default cell style format.
pub open spec fn cell_style_xfs() -> Seq<char> {
    "<cellStyleXfs count=\"1\"><xf numFmtId=\"0\" fontId=\"0\" fillId=\"0\" borderId=\"0\"/></cellStyleXfs>"@
}

/// The end of the styles part.
pub open spec fn styles_footer() -> Seq<char> {
    "</cellXfs><cellStyles count=\"1\"><cellStyle name=\"Normal\" xfId=\"0\" builtinId=\"0\"/></cellStyles></styleSheet>"@
}

/// The `fills` element.
pub open spec fn fills_part(fills: Seq<XlsFill>, palette: Seq<[u8; 3]>) -> Seq<char> {
    "<fills count=\""@ + decimal(fills.len()) + "\">"@ + fill_list(fills, palette, fills.len() as int) + "</fills>"@
}

/// The `borders` element.
pub open spec fn borders_part(borders: Seq<XlsBorder>, palette: Seq<[u8; 3]>) -> Seq<char> {
    "<borders count=\""@ + decimal(borders.len()) + "\">"@ + border_list(borders, palette, borders.len() as int)
        + "</borders>"@
}

/// The `cellXfs` element up to its end tag.
pub open spec fn cell_xfs_part(w: WorkbookFormatting) -> Seq<char> {
    let xfs = resolved_all(w.xfs@);
    let fills = fills_fold(xfs, xfs.len() as int);
    let borders = borders_fold(xfs, xfs.len() as int);
    "<cellXfs count=\""@ + decimal(w.xfs@.len()) + "\">"@ + xf_list(
        xfs,
        fills,
        borders,
        font_count(w.fonts@.len() as int),
        xfs.len() as int,
    )
}

/// The styles part of a workbook.
pub open spec fn styles_text(w: WorkbookFormatting) -> Seq<char> {
    let xfs = resolved_all(w.xfs@);
    let fills = fills_fold(xfs, xfs.len() as int);
    let borders = borders_fold(xfs, xfs.len() as int);
    styles_header() + formats_part(w.custom_formats@) + fonts_part(w.fonts@, w.palette@) + fills_part(
        fills,
        w.palette@,
    ) + borders_part(borders, w.palette@) + cell_style_xfs() + cell_xfs_part(w) + styles_footer()
}

/// Appends the `cellXfs` element up to its end tag.
fn append_cell_xfs(
    out: &mut String,
    workbook: &WorkbookFormatting,
    xfs: &Vec<XlsXf>,
    fills: &Vec<XlsFill>,
    borders: &Vec<XlsBorder>,
)
    requires
        workbook.fonts@.len() < usize::MAX,
        xfs@ == resolved_all(workbook.xfs@),
        fills@ == fills_fold(xfs@, xfs@.len() as int),
        borders@ == borders_fold(xfs@, xfs@.len() as int),
    ensures
        final(out)@ == old(out)@ + cell_xfs_part(*workbook),
{
    let ghost start = out@;
    append_str(out, "<cellXfs count=\"");
    append_decimal(out, workbook.xfs.len() as u64);
    append_str(out, "\">");
    let n = workbook.fonts.len();
    let font_total: usize = if n == 0 {
        1
    } else if n > 4 {
        n + 1
    } else {
        n
    };
    let ghost head = out@;
    let mut i: usize = 0;
    while i < xfs.len()
        invariant
            i <= xfs@.len(),
            out@ == head + xf_list(xfs@, fills@, borders@, font_total as int, i as int),
        decreases xfs@.len() - i,
    {
        append_xf(out, xfs[i], fills, borders, font_total);
        assert(out@ =~= head + xf_list(xfs@, fills@, borders@, font_total as int, i + 1));
        i = i + 1;
    }
    assert(out@ =~= start + cell_xfs_part(*workbook));
}

/// Serializes the styles part of a workbook.
#[verifier::rlimit(40)]
#[verifier::spinoff_prover]
pub fn styles_xml(workbook: &WorkbookFormatting) -> (res: String)
    requires
        workbook.fonts@.len() < usize::MAX,
    ensures
        res@ == styles_text(*workbook),
{
    let xfs = resolved_xfs(workbook.xfs.as_slice());
    let fills = unique_fills(xfs.as_slice());
    let borders = unique_borders(xfs.as_slice());
    let palette = workbook.palette.as_slice();
    let mut xml = String::new();
    append_str(
        &mut xml,
        "<?xml version=\"1.0\" encoding=\"UTF-8\" standalone=\"yes\"?><styleSheet xmlns=\"http://schemas.openxmlformats.org/spreadsheetml/2006/main\">",
    );
    let ghost s1 = xml@;
    append_formats(&mut xml, &workbook.custom_formats);
    let ghost s2 = xml@;
    append_fonts(&mut xml, &workbook.fonts, palette);
    let ghost s3 = xml@;
    append_fills(&mut xml, &fills, palette);
    let ghost s4 = xml@;
    append_borders(&mut xml, &borders, palette);
    let ghost s5 = xml@;
    append_str(
        &mut xml,
        "<cellStyleXfs count=\"1\"><xf numFmtId=\"0\" fontId=\"0\" fillId=\"0\" borderId=\"0\"/></cellStyleXfs>",
    );
    let ghost s6 = xml@;
    append_cell_xfs(&mut xml, workbook, &xfs, &fills, &borders);
    let ghost s7 = xml@;
    append_str(
        &mut xml,
        "</cellXfs><cellStyles count=\"1\"><cellStyle name=\"Normal\" xfId=\"0\" builtinId=\"0\"/></cellStyles></styleSheet>",
    );
    assert(xml@ =~= styles_text(*workbook));
    xml
}

} // verus!

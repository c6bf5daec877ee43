//! The page, border, alignment and underline settings of a Word document as
//! WordprocessingML models them: section page setup and columns, section
//! breaks, paragraph alignment, underline styles, and table and cell
//! borders from their Word 97 border codes.

use vstd::prelude::*;

use crate::ooxml_ir::{ico_color, indexed_color};
use crate::sections::{PageOrientation, SectionGeometry};

verus! {

/// The line style of a border.
#[derive(Clone, Copy, Debug, PartialEq, Eq, Structural)]
pub enum BorderStyle {
    Single,
    Double,
    Dotted,
    Dashed,
}

/// One border line: its style, its color, and its width in eighths of a
/// point; `space` is the distance to the content in points.
#[derive(Clone, Copy, Debug)]
pub struct BorderLine {
    pub style: BorderStyle,
    pub color: Option<[u8; 3]>,
    pub size: Option<u32>,
    pub space: Option<u32>,
}

/// The borders of a table or a cell.
#[derive(Clone, Copy, Debug)]
pub struct TableBorder {
    pub top: Option<BorderLine>,
    pub bottom: Option<BorderLine>,
    pub left: Option<BorderLine>,
    pub right: Option<BorderLine>,
    pub inside_h: Option<BorderLine>,
    pub inside_v: Option<BorderLine>,
}

/// The page of a section, its measures in twips.
#[derive(Clone, Copy, Debug, PartialEq, Eq, Structural)]
pub struct PageSetup {
    pub width_twips: u32,
    pub height_twips: u32,
    pub margin_top_twips: u32,
    pub margin_bottom_twips: u32,
    pub margin_left_twips: u32,
    pub margin_right_twips: u32,
    pub landscape: bool,
    pub header_distance_twips: u32,
    pub footer_distance_twips: u32,
}

/// The columns of a section with more than one.
#[derive(Clone, Copy, Debug, PartialEq, Eq, Structural)]
pub struct ColumnLayout {
    pub count: u32,
    pub space_twips: Option<u32>,
    pub separator: bool,
}

/// Where a section starts.
#[derive(Clone, Copy, Debug, PartialEq, Eq, Structural)]
pub enum SectionBreakType {
    Continuous,
    NextPage,
    EvenPage,
    OddPage,
}

/// The alignment of a paragraph.
#[derive(Clone, Copy, Debug, PartialEq, Eq, Structural)]
pub enum ParagraphAlignment {
    Left,
    Center,
    Right,
    Justify,
}

/// The style of an underline.
#[derive(Clone, Copy, Debug, PartialEq, Eq, Structural)]
pub enum UnderlineStyle {
    Single,
    Double,
    Thick,
    Dotted,
    Dash,
    DotDash,
    DotDotDash,
    Wave,
    Words,
}

/// The page a new `office_oxide` page setup describes: US Letter, with
/// one-inch top and bottom and 1.25-inch side margins, in portrait, and
/// half-inch header and footer distances.
pub open spec fn default_page() -> PageSetup {
    PageSetup {
        width_twips: 12240,
        height_twips: 15840,
        margin_top_twips: 1440,
        margin_bottom_twips: 1440,
        margin_left_twips: 1800,
        margin_right_twips: 1800,
        landscape: false,
        header_distance_twips: 720,
        footer_distance_twips: 720,
    }
}

/// `office_oxide`'s `PageSetup::default()`, its measures and orientation
/// taken as plain values.
#[verifier::external_body]
fn office_default_page() -> (res: PageSetup)
    ensures
        res == default_page(),
{
    let page = office_oxide::ir::PageSetup::default();
    PageSetup {
        width_twips: page.width_twips,
        height_twips: page.height_twips,
        margin_top_twips: page.margin_top_twips,
        margin_bottom_twips: page.margin_bottom_twips,
        margin_left_twips: page.margin_left_twips,
        margin_right_twips: page.margin_right_twips,
        landscape: page.landscape,
        header_distance_twips: page.header_distance_twips,
        footer_distance_twips: page.footer_distance_twips,
    }
}

/// An unsigned measure, or the default where it is absent.
pub open spec fn measure_or(value: Option<u16>, default: u32) -> u32 {
    match value {
        Some(v) => v as u32,
        None => default,
    }
}

/// The size of a signed measure, or the default where it is absent.
pub open spec fn signed_measure_or(value: Option<i16>, default: u32) -> u32 {
    match value {
        Some(v) => if v < 0 {
            (-v) as u32
        } else {
            v as u32
        },
        None => default,
    }
}

/// The page of a section with geometry `g`: each stored measure, the size of
/// a signed margin, and the default page's measure where none is stored.
pub open spec fn section_page(g: SectionGeometry) -> PageSetup {
    let d = default_page();
    PageSetup {
        width_twips: measure_or(g.page_width_twips, d.width_twips),
        height_twips: measure_or(g.page_height_twips, d.height_twips),
        margin_top_twips: signed_measure_or(g.margin_top_twips, d.margin_top_twips),
        margin_bottom_twips: signed_measure_or(g.margin_bottom_twips, d.margin_bottom_twips),
        margin_left_twips: measure_or(g.margin_left_twips, d.margin_left_twips),
        margin_right_twips: measure_or(g.margin_right_twips, d.margin_right_twips),
        landscape: g.orientation == Some(PageOrientation::Landscape),
        header_distance_twips: measure_or(g.header_distance_twips, d.header_distance_twips),
        footer_distance_twips: measure_or(g.footer_distance_twips, d.footer_distance_twips),
    }
}

/// An unsigned measure, or `default` where it is absent.
fn unsigned_or(value: Option<u16>, default: u32) -> (res: u32)
    ensures
        res == measure_or(value, default),
{
    match value {
        Some(v) => v as u32,
        None => default,
    }
}

/// The size of a signed measure, or `default` where it is absent.
fn magnitude_or(value: Option<i16>, default: u32) -> (res: u32)
    ensures
        res == signed_measure_or(value, default),
{
    match value {
        Some(v) => if v < 0 {
            let m: i32 = -(v as i32);
            m as u32
        } else {
            v as u32
        },
        None => default,
    }
}

/// The page of a section with geometry `geometry`.
pub fn page_setup(geometry: &SectionGeometry) -> (res: PageSetup)
    ensures
        res == section_page(*geometry),
{
    let defaults = office_default_page();
    let landscape = match geometry.orientation {
        Some(PageOrientation::Landscape) => true,
        _ => false,
    };
    PageSetup {
        width_twips: unsigned_or(geometry.page_width_twips, defaults.width_twips),
        height_twips: unsigned_or(geometry.page_height_twips, defaults.height_twips),
        margin_top_twips: magnitude_or(geometry.margin_top_twips, defaults.margin_top_twips),
        margin_bottom_twips: magnitude_or(geometry.margin_bottom_twips, defaults.margin_bottom_twips),
        margin_left_twips: unsigned_or(geometry.margin_left_twips, defaults.margin_left_twips),
        margin_right_twips: unsigned_or(geometry.margin_right_twips, defaults.margin_right_twips),
        landscape,
        header_distance_twips: unsigned_or(geometry.header_distance_twips, defaults.header_distance_twips),
        footer_distance_twips: unsigned_or(geometry.footer_distance_twips, defaults.footer_distance_twips),
    }
}

/// The columns of a section with geometry `g`: present where more than one
/// column is stored.
pub open spec fn section_columns(g: SectionGeometry) -> Option<ColumnLayout> {
    match g.column_count {
        Some(count) => if count > 1 {
            Some(
                ColumnLayout {
                    count: count as u32,
                    space_twips: match g.column_spacing_twips {
                        Some(s) => Some(s as u32),
                        None => None,
                    },
                    separator: g.line_between_columns == Some(true),
                },
            )
        } else {
            None
        },
        None => None,
    }
}

/// The columns of a section with geometry `geometry`.
pub fn column_layout(geometry: &SectionGeometry) -> (res: Option<ColumnLayout>)
    ensures
        res == section_columns(*geometry),
{
    let count = match geometry.column_count {
        Some(count) => count,
        None => {
            return None;
        },
    };
    if count <= 1 {
        return None;
    }
    let space_twips = match geometry.column_spacing_twips {
        Some(s) => Some(s as u32),
        None => None,
    };
    let separator = match geometry.line_between_columns {
        Some(b) => b,
        None => false,
    };
    Some(ColumnLayout { count: count as u32, space_twips, separator })
}

/// Where a section with break code `code` starts.
pub open spec fn break_type(code: Option<u8>) -> SectionBreakType {
    match code {
        Some(3) => SectionBreakType::EvenPage,
        Some(4) => SectionBreakType::OddPage,
        Some(2) => SectionBreakType::NextPage,
        _ => SectionBreakType::Continuous,
    }
}

/// Where a section with break code `code` starts.
pub fn section_break(code: Option<u8>) -> (res: SectionBreakType)
    ensures
        res == break_type(code),
{
    match code {
        Some(3) => SectionBreakType::EvenPage,
        Some(4) => SectionBreakType::OddPage,
        Some(2) => SectionBreakType::NextPage,
        _ => SectionBreakType::Continuous,
    }
}

/// The alignment of a paragraph with justification code `value`.
pub open spec fn alignment_of(value: Option<u8>) -> Option<ParagraphAlignment> {
    match value {
        Some(v) => if v == 0 || v == 7 {
            Some(ParagraphAlignment::Left)
        } else if v == 1 || v == 8 {
            Some(ParagraphAlignment::Center)
        } else if v == 2 || v == 9 {
            Some(ParagraphAlignment::Right)
        } else if 3 <= v <= 6 {
            Some(ParagraphAlignment::Justify)
        } else {
            None
        },
        None => None,
    }
}

/// The alignment of a paragraph with justification code `value`.
pub fn paragraph_alignment(value: Option<u8>) -> (res: Option<ParagraphAlignment>)
    ensures
        res == alignment_of(value),
{
    match value {
        Some(v) => if v == 0 || v == 7 {
            Some(ParagraphAlignment::Left)
        } else if v == 1 || v == 8 {
            Some(ParagraphAlignment::Center)
        } else if v == 2 || v == 9 {
            Some(ParagraphAlignment::Right)
        } else if 3 <= v && v <= 6 {
            Some(ParagraphAlignment::Justify)
        } else {
            None
        },
        None => None,
    }
}

/// The underline of Word underline code `value`: none for 0, a single line
/// for the codes without a style of their own.
pub open spec fn underline_of(value: u8) -> Option<UnderlineStyle> {
    if value == 0 {
        None
    } else if value == 2 {
        Some(UnderlineStyle::Words)
    } else if value == 3 || value == 20 {
        Some(UnderlineStyle::Double)
    } else if value == 4 || value == 21 {
        Some(UnderlineStyle::Dotted)
    } else if value == 6 || value == 22 {
        Some(UnderlineStyle::Thick)
    } else if value == 7 || value == 9 || value == 23 || value == 25 {
        Some(UnderlineStyle::Dash)
    } else if value == 11 || value == 26 {
        Some(UnderlineStyle::DotDash)
    } else if value == 12 || value == 27 {
        Some(UnderlineStyle::DotDotDash)
    } else if value == 8 || value == 43 {
        Some(UnderlineStyle::Wave)
    } else {
        Some(UnderlineStyle::Single)
    }
}

/// The underline of Word underline code `value`.
pub fn underline_style(value: u8) -> (res: Option<UnderlineStyle>)
    ensures
        res == underline_of(value),
{
    if value == 0 {
        None
    } else if value == 2 {
        Some(UnderlineStyle::Words)
    } else if value == 3 || value == 20 {
        Some(UnderlineStyle::Double)
    } else if value == 4 || value == 21 {
        Some(UnderlineStyle::Dotted)
    } else if value == 6 || value == 22 {
        Some(UnderlineStyle::Thick)
    } else if value == 7 || value == 9 || value == 23 || value == 25 {
        Some(UnderlineStyle::Dash)
    } else if value == 11 || value == 26 {
        Some(UnderlineStyle::DotDash)
    } else if value == 12 || value == 27 {
        Some(UnderlineStyle::DotDotDash)
    } else if value == 8 || value == 43 {
        Some(UnderlineStyle::Wave)
    } else {
        Some(UnderlineStyle::Single)
    }
}

/// The line style of Word 97 border type `kind`.
pub open spec fn border_style_of(kind: u8) -> BorderStyle {
    if kind == 3 || kind == 10 {
        BorderStyle::Double
    } else if 6 <= kind <= 9 {
        BorderStyle::Dotted
    } else if 11 <= kind <= 19 {
        BorderStyle::Dashed
    } else {
        BorderStyle::Single
    }
}

/// Whether a Word 97 border code draws no line: every byte is 0xFF, or its
/// border type is 0.
pub open spec fn no_border(raw: Seq<u8>) -> bool {
    (raw[0] == 0xFF && raw[1] == 0xFF && raw[2] == 0xFF && raw[3] == 0xFF) || raw[1] == 0
}

/// Whether `line` is the border that Word 97 border code `raw` draws: the
/// style of its border type, the indexed color of its color byte, and its
/// width byte, at least 1, as the size.
pub open spec fn border_line_of(raw: Seq<u8>, line: BorderLine) -> bool {
    &&& line.style == border_style_of(raw[1])
    &&& match ico_color(raw[2]) {
        Some(c) => line.color matches Some(x) && x@ == c,
        None => line.color is None,
    }
    &&& line.size == Some(if raw[0] == 0 {
        1u32
    } else {
        raw[0] as u32
    })
    &&& line.space is None
}

/// Whether `res` is the border of Word 97 border code `raw`.
pub open spec fn border_of(raw: Seq<u8>, res: Option<BorderLine>) -> bool {
    if no_border(raw) {
        res is None
    } else {
        res matches Some(line) && border_line_of(raw, line)
    }
}

/// The border line of a Word 97 border code, if it draws one.
pub fn brc80(raw: [u8; 4]) -> (res: Option<BorderLine>)
    ensures
        border_of(raw@, res),
{
    if (raw[0] == 0xFF && raw[1] == 0xFF && raw[2] == 0xFF && raw[3] == 0xFF) || raw[1] == 0 {
        return None;
    }
    let kind = raw[1];
    let style = if kind == 3 || kind == 10 {
        BorderStyle::Double
    } else if 6 <= kind && kind <= 9 {
        BorderStyle::Dotted
    } else if 11 <= kind && kind <= 19 {
        BorderStyle::Dashed
    } else {
        BorderStyle::Single
    };
    let width: u8 = if raw[0] == 0 {
        1
    } else {
        raw[0]
    };
    Some(BorderLine { style, color: indexed_color(raw[2]), size: Some(width as u32), space: None })
}

/// The borders of a cell with Word 97 border codes `raw` (top, left, bottom,
/// right): present where some side draws a line.
pub fn cell_border(raw: &[[u8; 4]; 4]) -> (res: Option<TableBorder>)
    ensures
        (forall|i: int| 0 <= i < 4 ==> no_border(#[trigger] raw@[i]@)) ==> res is None,
        res matches Some(b) ==> {
            &&& border_of(raw@[0]@, b.top)
            &&& border_of(raw@[1]@, b.left)
            &&& border_of(raw@[2]@, b.bottom)
            &&& border_of(raw@[3]@, b.right)
            &&& b.inside_h is None
            &&& b.inside_v is None
        },
        !(forall|i: int| 0 <= i < 4 ==> no_border(#[trigger] raw@[i]@)) ==> res is Some,
{
    let top = brc80(raw[0]);
    let left = brc80(raw[1]);
    let bottom = brc80(raw[2]);
    let right = brc80(raw[3]);
    if top.is_some() || left.is_some() || bottom.is_some() || right.is_some() {
        Some(TableBorder { top, bottom, left, right, inside_h: None, inside_v: None })
    } else {
        proof {
            assert forall|i: int| 0 <= i < 4 implies no_border(#[trigger] raw@[i]@) by {
                if i == 0 {
                } else if i == 1 {
                } else if i == 2 {
                } else {
                }
            }
        }
        None
    }
}

/// The borders of a table with Word 97 border codes `raw` (top, left,
/// bottom, right, inside horizontal, inside vertical): present where some
/// edge draws a line.
pub fn table_border(raw: &[[u8; 4]; 6]) -> (res: Option<TableBorder>)
    ensures
        (forall|i: int| 0 <= i < 6 ==> no_border(#[trigger] raw@[i]@)) ==> res is None,
        res matches Some(b) ==> {
            &&& border_of(raw@[0]@, b.top)
            &&& border_of(raw@[1]@, b.left)
            &&& border_of(raw@[2]@, b.bottom)
            &&& border_of(raw@[3]@, b.right)
            &&& border_of(raw@[4]@, b.inside_h)
            &&& border_of(raw@[5]@, b.inside_v)
        },
        !(forall|i: int| 0 <= i < 6 ==> no_border(#[trigger] raw@[i]@)) ==> res is Some,
{
    let top = brc80(raw[0]);
    let left = brc80(raw[1]);
    let bottom = brc80(raw[2]);
    let right = brc80(raw[3]);
    let inside_h = brc80(raw[4]);
    let inside_v = brc80(raw[5]);
    if top.is_some() || left.is_some() || bottom.is_some() || right.is_some() || inside_h.is_some()
        || inside_v.is_some() {
        Some(TableBorder { top, bottom, left, right, inside_h, inside_v })
    } else {
        proof {
            assert forall|i: int| 0 <= i < 6 implies no_border(#[trigger] raw@[i]@) by {
                if i == 0 {
                } else if i == 1 {
                } else if i == 2 {
                } else if i == 3 {
                } else if i == 4 {
                } else {
                }
            }
        }
        None
    }
}

} // verus!

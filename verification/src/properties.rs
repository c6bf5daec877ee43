//! Typed, source-proven direct character and paragraph properties.

use vstd::prelude::*;

use crate::binary::{le_i32, le_u16, le_u32, read_i32_le, read_u16_le, read_u32_le};
use crate::error::{DocError, ErrorKind, Result, message};
use crate::sprm::{PropertyGroup, Sprm};

verus! {

/// A character toggle before style-relative values are resolved through STSH.
#[derive(Debug, Clone, Copy, PartialEq, Eq, Structural)]
pub enum ToggleValue {
    /// Force the property off.
    Off,
    /// Force the property on.
    On,
    /// Copy the value from the current style.
    SameAsStyle,
    /// Invert the value from the current style.
    OppositeStyle,
}

/// Explicit superscript/subscript state.
#[derive(Debug, Clone, Copy, PartialEq, Eq, Structural)]
pub enum VerticalAlignment {
    /// Normal baseline.
    Baseline,
    /// Superscript.
    Superscript,
    /// Subscript.
    Subscript,
}

/// Word line-spacing data retained without converting it to CSS heuristics.
#[derive(Debug, Clone, Copy, PartialEq, Eq, Structural)]
pub struct LineSpacing {
    /// Signed `dyaLine` value in twips or 240ths of a line.
    pub value: i16,
    /// Whether `value` is a line multiplier rather than an absolute distance.
    pub multiple: bool,
}

/// One custom paragraph tab stop from a source tab-change operand.
#[derive(Debug, Clone, Copy, PartialEq, Eq, Structural)]
pub struct TabStop {
    pub position_twips: i16,
    /// Raw three-bit tab justification code.
    pub alignment: u8,
    /// Raw three-bit leader code.
    pub leader: u8,
}

/// Ordered additions and removals from one tab-change SPRM.
#[derive(Debug, Clone, PartialEq, Eq)]
pub struct TabChange {
    pub delete_positions_twips: Vec<i16>,
    /// Close ranges for `sprmPChgTabs`; absent for `sprmPChgTabsPapx`.
    pub delete_close_twips: Option<Vec<u16>>,
    pub additions: Vec<TabStop>,
    /// The ignorable extended 0xFF representation was used.
    pub extended: bool,
}

/// Known direct character properties. `None` means not explicitly modified.
#[derive(Debug, Clone, PartialEq, Eq)]
pub struct CharacterPropertyDelta {
    pub style_index: Option<u16>,
    /// Byte offset in the `Data` stream supplied by `sprmCPicLocation`.
    pub picture_location: Option<u32>,
    /// Whether `sprmCPlain` requested removal of non-style properties.
    pub plain: bool,
    /// Whether a U+0001 picture character names `NilPICFAndBinData` rather
    /// than `PICFAndOfficeArtData` (`sprmCFData`).
    pub binary_data: Option<bool>,
    /// Whether a field separator is a placeholder for an OLE object
    /// (`sprmCFOle2`). The object is never executed by this parser.
    pub ole2: Option<bool>,
    pub bold: Option<ToggleValue>,
    pub italic: Option<ToggleValue>,
    pub strike: Option<ToggleValue>,
    pub double_strike: Option<ToggleValue>,
    pub outline: Option<ToggleValue>,
    pub shadow: Option<ToggleValue>,
    pub small_caps: Option<ToggleValue>,
    pub caps: Option<ToggleValue>,
    pub hidden: Option<ToggleValue>,
    pub imprint: Option<ToggleValue>,
    pub emboss: Option<ToggleValue>,
    pub special: Option<ToggleValue>,
    pub object: Option<ToggleValue>,
    pub bidi: Option<ToggleValue>,
    pub bidi_bold: Option<ToggleValue>,
    pub bidi_italic: Option<ToggleValue>,
    pub complex_scripts: Option<ToggleValue>,
    pub underline: Option<u8>,
    pub character_spacing_twips: Option<i16>,
    pub color_index: Option<u8>,
    pub color_ref: Option<u32>,
    pub underline_color_ref: Option<u32>,
    pub highlight_index: Option<u8>,
    pub font_size_half_points: Option<u16>,
    pub baseline_offset_half_points: Option<i16>,
    pub vertical_alignment: Option<VerticalAlignment>,
    pub font_ascii: Option<u16>,
    pub font_east_asian: Option<u16>,
    pub font_other: Option<u16>,
    pub font_bidi: Option<u16>,
    pub language_ascii: Option<u16>,
    pub language_east_asian: Option<u16>,
    pub language_bidi: Option<u16>,
    /// Character-family opcodes that were framed but are not interpreted yet.
    pub unsupported_opcodes: Vec<u16>,
    /// Well-framed modifiers belonging to another property family.
    pub other_group_opcodes: Vec<u16>,
}

/// Known direct paragraph properties. `None` means not explicitly modified.
#[derive(Debug, Clone, PartialEq, Eq)]
pub struct ParagraphPropertyDelta {
    /// Paragraph style selected by an explicit `sprmPIstd`, if present.
    pub style_index: Option<u16>,
    /// Physical/legacy or logical justification code as stored by Word.
    pub justification: Option<u8>,
    pub keep_together: Option<bool>,
    pub keep_with_next: Option<bool>,
    pub page_break_before: Option<bool>,
    pub list_level: Option<u8>,
    pub list_id: Option<i16>,
    pub indent_right_twips: Option<i16>,
    pub indent_left_twips: Option<i16>,
    pub first_line_indent_twips: Option<i16>,
    pub line_spacing: Option<LineSpacing>,
    /// Tab changes are cumulative and therefore remain in source order.
    pub tab_changes: Vec<TabChange>,
    pub space_before_twips: Option<u16>,
    pub space_after_twips: Option<u16>,
    pub in_table: Option<bool>,
    pub table_terminating_paragraph: Option<bool>,
    pub outline_level: Option<u8>,
    pub bidi: Option<bool>,
    pub table_depth: Option<i32>,
    pub table_depth_delta: Option<i32>,
    pub inner_table_cell: Option<bool>,
    pub inner_table_terminating_paragraph: Option<bool>,
    pub automatic_space_before: Option<bool>,
    pub automatic_space_after: Option<bool>,
    pub contextual_spacing: Option<bool>,
    pub mirror_indents: Option<bool>,
    /// Paragraph-family opcodes that were framed but are not interpreted yet.
    pub unsupported_opcodes: Vec<u16>,
    /// Well-framed modifiers belonging to another property family.
    pub other_group_opcodes: Vec<u16>,
}

impl CharacterPropertyDelta {
    /// Whether no character property is modified.
    pub open spec fn no_changes(&self) -> bool {
        &&& self.style_index is None
        &&& self.picture_location is None
        &&& self.binary_data is None
        &&& self.ole2 is None
        &&& self.bold is None
        &&& self.italic is None
        &&& self.strike is None
        &&& self.double_strike is None
        &&& self.outline is None
        &&& self.shadow is None
        &&& self.small_caps is None
        &&& self.caps is None
        &&& self.hidden is None
        &&& self.imprint is None
        &&& self.emboss is None
        &&& self.special is None
        &&& self.object is None
        &&& self.bidi is None
        &&& self.bidi_bold is None
        &&& self.bidi_italic is None
        &&& self.complex_scripts is None
        &&& self.underline is None
        &&& self.character_spacing_twips is None
        &&& self.color_index is None
        &&& self.color_ref is None
        &&& self.underline_color_ref is None
        &&& self.highlight_index is None
        &&& self.font_size_half_points is None
        &&& self.baseline_offset_half_points is None
        &&& self.vertical_alignment is None
        &&& self.font_ascii is None
        &&& self.font_east_asian is None
        &&& self.font_other is None
        &&& self.font_bidi is None
        &&& self.language_ascii is None
        &&& self.language_east_asian is None
        &&& self.language_bidi is None
        &&& !self.plain
        &&& self.unsupported_opcodes@.len() == 0
        &&& self.other_group_opcodes@.len() == 0
    }
}

impl Default for CharacterPropertyDelta {
    fn default() -> (res: Self)
        ensures
            res.no_changes(),
    {
        CharacterPropertyDelta {
            style_index: None,
            picture_location: None,
            binary_data: None,
            ole2: None,
            bold: None,
            italic: None,
            strike: None,
            double_strike: None,
            outline: None,
            shadow: None,
            small_caps: None,
            caps: None,
            hidden: None,
            imprint: None,
            emboss: None,
            special: None,
            object: None,
            bidi: None,
            bidi_bold: None,
            bidi_italic: None,
            complex_scripts: None,
            underline: None,
            character_spacing_twips: None,
            color_index: None,
            color_ref: None,
            underline_color_ref: None,
            highlight_index: None,
            font_size_half_points: None,
            baseline_offset_half_points: None,
            vertical_alignment: None,
            font_ascii: None,
            font_east_asian: None,
            font_other: None,
            font_bidi: None,
            language_ascii: None,
            language_east_asian: None,
            language_bidi: None,
            plain: false,
            unsupported_opcodes: Vec::new(),
            other_group_opcodes: Vec::new(),
        }
    }
}

impl ParagraphPropertyDelta {
    /// Whether no paragraph property is modified.
    pub open spec fn no_changes(&self) -> bool {
        &&& self.style_index is None
        &&& self.justification is None
        &&& self.keep_together is None
        &&& self.keep_with_next is None
        &&& self.page_break_before is None
        &&& self.list_level is None
        &&& self.list_id is None
        &&& self.indent_right_twips is None
        &&& self.indent_left_twips is None
        &&& self.first_line_indent_twips is None
        &&& self.line_spacing is None
        &&& self.space_before_twips is None
        &&& self.space_after_twips is None
        &&& self.in_table is None
        &&& self.table_terminating_paragraph is None
        &&& self.outline_level is None
        &&& self.bidi is None
        &&& self.table_depth is None
        &&& self.table_depth_delta is None
        &&& self.inner_table_cell is None
        &&& self.inner_table_terminating_paragraph is None
        &&& self.automatic_space_before is None
        &&& self.automatic_space_after is None
        &&& self.contextual_spacing is None
        &&& self.mirror_indents is None
        &&& self.tab_changes@.len() == 0
        &&& self.unsupported_opcodes@.len() == 0
        &&& self.other_group_opcodes@.len() == 0
    }
}

impl Default for ParagraphPropertyDelta {
    fn default() -> (res: Self)
        ensures
            res.no_changes(),
    {
        ParagraphPropertyDelta {
            style_index: None,
            justification: None,
            keep_together: None,
            keep_with_next: None,
            page_break_before: None,
            list_level: None,
            list_id: None,
            indent_right_twips: None,
            indent_left_twips: None,
            first_line_indent_twips: None,
            line_spacing: None,
            space_before_twips: None,
            space_after_twips: None,
            in_table: None,
            table_terminating_paragraph: None,
            outline_level: None,
            bidi: None,
            table_depth: None,
            table_depth_delta: None,
            inner_table_cell: None,
            inner_table_terminating_paragraph: None,
            automatic_space_before: None,
            automatic_space_after: None,
            contextual_spacing: None,
            mirror_indents: None,
            tab_changes: Vec::new(),
            unsupported_opcodes: Vec::new(),
            other_group_opcodes: Vec::new(),
        }
    }
}

// ---- Operand decoding.

/// The operand bytes of `s`.
pub open spec fn op(s: Sprm) -> Seq<u8> {
    s.operand@
}

/// Whether the operand is exactly one byte.
pub open spec fn byte_ok(s: Sprm) -> bool {
    op(s).len() == 1
}

/// Whether the operand is exactly two bytes.
pub open spec fn word_ok(s: Sprm) -> bool {
    op(s).len() == 2
}

/// Whether the operand is exactly four bytes.
pub open spec fn dword_ok(s: Sprm) -> bool {
    op(s).len() == 4
}

/// The first operand byte.
pub open spec fn op_byte(s: Sprm) -> u8 {
    op(s)[0]
}

/// The little-endian operand word.
pub open spec fn op_word(s: Sprm) -> u16 {
    le_u16(op(s), 0)
}

/// The little-endian operand double word.
pub open spec fn op_dword(s: Sprm) -> u32 {
    le_u32(op(s), 0)
}

/// The little-endian signed operand double word.
pub open spec fn op_sdword(s: Sprm) -> i32 {
    le_i32(op(s), 0)
}

/// Whether the operand is a `Bool8`: one byte, 0 or 1.
pub open spec fn bool_ok(s: Sprm) -> bool {
    byte_ok(s) && op_byte(s) <= 1
}

/// Whether the operand is a toggle byte: 0x00, 0x01, 0x80 or 0x81.
pub open spec fn toggle_ok(s: Sprm) -> bool {
    byte_ok(s) && (op_byte(s) == 0 || op_byte(s) == 1 || op_byte(s) == 0x80 || op_byte(s) == 0x81)
}

/// The toggle a valid toggle byte stands for.
pub open spec fn toggle_of(b: u8) -> ToggleValue {
    if b == 0 {
        ToggleValue::Off
    } else if b == 1 {
        ToggleValue::On
    } else if b == 0x80 {
        ToggleValue::SameAsStyle
    } else {
        ToggleValue::OppositeStyle
    }
}

/// The vertical alignment a valid `iss` byte stands for.
pub open spec fn valign_of(b: u8) -> VerticalAlignment {
    if b == 0 {
        VerticalAlignment::Baseline
    } else if b == 1 {
        VerticalAlignment::Superscript
    } else {
        VerticalAlignment::Subscript
    }
}

/// Index of the last of the first `n` SPRMs of `group` whose opcode is `a`, `b`, `c` or `d`.
pub open spec fn last_index(sprms: Seq<Sprm>, n: int, group: PropertyGroup, a: u16, b: u16, c: u16, d: u16) -> Option<
    int,
>
    decreases n,
{
    if n <= 0 {
        None
    } else if sprms[n - 1].group == group && (sprms[n - 1].opcode == a || sprms[n - 1].opcode == b
        || sprms[n - 1].opcode == c || sprms[n - 1].opcode == d) {
        Some(n - 1)
    } else {
        last_index(sprms, n - 1, group, a, b, c, d)
    }
}

/// The opcodes of the first `n` SPRMs that belong to a family other than `group`.
pub open spec fn foreign_opcodes(sprms: Seq<Sprm>, n: int, group: PropertyGroup) -> Seq<u16>
    decreases n,
{
    if n <= 0 {
        seq![]
    } else if sprms[n - 1].group != group {
        foreign_opcodes(sprms, n - 1, group).push(sprms[n - 1].opcode)
    } else {
        foreign_opcodes(sprms, n - 1, group)
    }
}

// ---- Tab changes.

/// Offset of the close ranges (or of the add count without them).
pub open spec fn tab_close_offset(b: Seq<u8>) -> int {
    2 + 2 * b[1]
}

/// Offset of the add count.
pub open spec fn tab_add_count_offset(b: Seq<u8>, close: bool) -> int {
    tab_close_offset(b) + if close {
        2 * b[1]
    } else {
        0
    }
}

/// Number of added tabs.
pub open spec fn tab_add_count(b: Seq<u8>, close: bool) -> int {
    b[tab_add_count_offset(b, close)] as int
}

/// Offset of the added tabs' descriptors.
pub open spec fn tab_descriptor_offset(b: Seq<u8>, close: bool) -> int {
    tab_add_count_offset(b, close) + 1 + 2 * tab_add_count(b, close)
}

/// Tab position `k` of the array at `start`.
pub open spec fn tab_position(b: Seq<u8>, start: int, k: int) -> i16 {
    le_u16(b, start + 2 * k) as i16
}

/// Whether `count` tab positions at `start` are in bounds, within ±31680
/// twips, and strictly increasing.
pub open spec fn tab_positions_ok(b: Seq<u8>, start: int, count: int) -> bool {
    &&& start + 2 * count <= b.len()
    &&& forall|k: int| 0 <= k < count ==> -31680 <= #[trigger] tab_position(b, start, k) <= 31680
    &&& forall|i: int, j: int|
        0 <= i < j < count ==> #[trigger] tab_position(b, start, i) < #[trigger] tab_position(b, start, j)
}

/// Whether `b` is a valid tab-change operand; `close` selects the layout
/// with close ranges (`sprmPChgTabs`).
pub open spec fn tab_ok(b: Seq<u8>, close: bool) -> bool {
    &&& b.len() >= 2
    &&& (b[0] == 0xFF || b.len() == b[0] + 1)
    &&& b[1] <= 64
    &&& tab_positions_ok(b, 2, b[1] as int)
    &&& tab_add_count_offset(b, close) < b.len()
    &&& tab_add_count(b, close) <= 64
    &&& tab_positions_ok(b, tab_add_count_offset(b, close) + 1, tab_add_count(b, close))
    &&& tab_descriptor_offset(b, close) + tab_add_count(b, close) == b.len()
    &&& forall|k: int|
        0 <= k < tab_add_count(b, close) ==> #[trigger] b[tab_descriptor_offset(b, close) + k] & 0xC0 == 0
}

/// Whether `t` is the tab change decoded from operand `b`.
pub open spec fn tab_change_decoded(t: TabChange, b: Seq<u8>, close: bool) -> bool {
    let deletes = b[1] as int;
    let adds = tab_add_count(b, close);
    let add_start = tab_add_count_offset(b, close) + 1;
    let desc = tab_descriptor_offset(b, close);
    &&& t.delete_positions_twips@ == Seq::new(deletes as nat, |k: int| tab_position(b, 2, k))
    &&& match t.delete_close_twips {
        Some(v) => close && v@ == Seq::new(deletes as nat, |k: int| le_u16(b, tab_close_offset(b) + 2 * k)),
        None => !close,
    }
    &&& t.additions@ == Seq::new(
        adds as nat,
        |k: int|
            TabStop {
                position_twips: tab_position(b, add_start, k),
                alignment: b[desc + k] & 0x07,
                leader: (b[desc + k] >> 3u8) & 0x07,
            },
    )
    &&& t.extended == (b[0] == 0xFF)
}

/// Whether `t` is the tab change of SPRM `s`.
pub open spec fn tab_change_matches(t: TabChange, s: Sprm) -> bool {
    tab_change_decoded(t, op(s), s.opcode == 0xC615)
}

/// The tab-change SPRMs among the first `n`.
pub open spec fn tab_sprms(sprms: Seq<Sprm>, n: int) -> Seq<Sprm>
    decreases n,
{
    if n <= 0 {
        seq![]
    } else if sprms[n - 1].group == PropertyGroup::Paragraph && (sprms[n - 1].opcode == 0xC60D
        || sprms[n - 1].opcode == 0xC615) {
        tab_sprms(sprms, n - 1).push(sprms[n - 1])
    } else {
        tab_sprms(sprms, n - 1)
    }
}

// ---- The families.

/// Whether a character SPRM `s` has a valid operand.
pub open spec fn character_operand_ok(s: Sprm) -> bool {
    match s.opcode {
        0x4A30 => word_ok(s),
        0x6A03 => dword_ok(s),
        0x0806 => bool_ok(s),
        0x080A => bool_ok(s),
        0x0835 => toggle_ok(s),
        0x0836 => toggle_ok(s),
        0x0837 => toggle_ok(s),
        0x2A53 => toggle_ok(s),
        0x0838 => toggle_ok(s),
        0x0839 => toggle_ok(s),
        0x083A => toggle_ok(s),
        0x083B => toggle_ok(s),
        0x083C => toggle_ok(s),
        0x0854 => toggle_ok(s),
        0x0858 => toggle_ok(s),
        0x0855 => toggle_ok(s),
        0x0856 => toggle_ok(s),
        0x085A => toggle_ok(s),
        0x085C => toggle_ok(s),
        0x085D => toggle_ok(s),
        0x0882 => toggle_ok(s),
        0x2A3E => byte_ok(s),
        0x8840 => word_ok(s),
        0x2A42 | 0x4A60 => byte_ok(s) && op_byte(s) <= 16,
        0x6870 => dword_ok(s),
        0x6877 => dword_ok(s),
        0x2A0C => byte_ok(s) && op_byte(s) <= 16,
        0x4A43 | 0x4A61 => word_ok(s) && 2 <= op_word(s) <= 3276,
        0x4845 => word_ok(s) && -3168 <= op_word(s) as i16 <= 3168,
        0x2A48 => byte_ok(s) && op_byte(s) <= 2,
        0x4A4F => word_ok(s),
        0x4A50 => word_ok(s),
        0x4A51 => word_ok(s),
        0x4A5E => word_ok(s),
        0x486D | 0x4873 => word_ok(s),
        0x486E | 0x4874 => word_ok(s),
        0x485F => word_ok(s),
        0x2A33 => true,
        _ => true,
    }
}

/// Whether `s` belongs to another family or has a valid character operand.
pub open spec fn character_sprm_ok(s: Sprm) -> bool {
    s.group != PropertyGroup::Character || character_operand_ok(s)
}

/// Whether `opcode` is interpreted as a character property.
pub open spec fn character_known(opcode: u16) -> bool {
    opcode == 0x0806
        || opcode == 0x080A
        || opcode == 0x0835
        || opcode == 0x0836
        || opcode == 0x0837
        || opcode == 0x0838
        || opcode == 0x0839
        || opcode == 0x083A
        || opcode == 0x083B
        || opcode == 0x083C
        || opcode == 0x0854
        || opcode == 0x0855
        || opcode == 0x0856
        || opcode == 0x0858
        || opcode == 0x085A
        || opcode == 0x085C
        || opcode == 0x085D
        || opcode == 0x0882
        || opcode == 0x2A0C
        || opcode == 0x2A33
        || opcode == 0x2A3E
        || opcode == 0x2A42
        || opcode == 0x2A48
        || opcode == 0x2A53
        || opcode == 0x4845
        || opcode == 0x485F
        || opcode == 0x486D
        || opcode == 0x486E
        || opcode == 0x4873
        || opcode == 0x4874
        || opcode == 0x4A30
        || opcode == 0x4A43
        || opcode == 0x4A4F
        || opcode == 0x4A50
        || opcode == 0x4A51
        || opcode == 0x4A5E
        || opcode == 0x4A60
        || opcode == 0x4A61
        || opcode == 0x6870
        || opcode == 0x6877
        || opcode == 0x6A03
        || opcode == 0x8840
}

/// The opcodes of the first `n` SPRMs that are character SPRMs this parser does not interpret.
pub open spec fn character_unknown_opcodes(sprms: Seq<Sprm>, n: int) -> Seq<u16>
    decreases n,
{
    if n <= 0 {
        seq![]
    } else if sprms[n - 1].group == PropertyGroup::Character && !character_known(sprms[n - 1].opcode) {
        character_unknown_opcodes(sprms, n - 1).push(sprms[n - 1].opcode)
    } else {
        character_unknown_opcodes(sprms, n - 1)
    }
}

/// Whether `d` holds, for each character property, the value given by the last
/// of the first `n` SPRMs that sets it, and lists the opcodes it does not interpret.
pub open spec fn character_fields_match(d: CharacterPropertyDelta, sprms: Seq<Sprm>, n: int) -> bool {
    &&& d.style_index == match last_index(sprms, n, PropertyGroup::Character, 0x4A30, 0x4A30, 0x4A30, 0x4A30) {
        Some(i) => Some(op_word(sprms[i])),
        None => None,
    }
    &&& d.picture_location == match last_index(sprms, n, PropertyGroup::Character, 0x6A03, 0x6A03, 0x6A03, 0x6A03) {
        Some(i) => Some(op_dword(sprms[i])),
        None => None,
    }
    &&& d.binary_data == match last_index(sprms, n, PropertyGroup::Character, 0x0806, 0x0806, 0x0806, 0x0806) {
        Some(i) => Some(op_byte(sprms[i]) == 1),
        None => None,
    }
    &&& d.ole2 == match last_index(sprms, n, PropertyGroup::Character, 0x080A, 0x080A, 0x080A, 0x080A) {
        Some(i) => Some(op_byte(sprms[i]) == 1),
        None => None,
    }
    &&& d.bold == match last_index(sprms, n, PropertyGroup::Character, 0x0835, 0x0835, 0x0835, 0x0835) {
        Some(i) => Some(toggle_of(op_byte(sprms[i]))),
        None => None,
    }
    &&& d.italic == match last_index(sprms, n, PropertyGroup::Character, 0x0836, 0x0836, 0x0836, 0x0836) {
        Some(i) => Some(toggle_of(op_byte(sprms[i]))),
        None => None,
    }
    &&& d.strike == match last_index(sprms, n, PropertyGroup::Character, 0x0837, 0x0837, 0x0837, 0x0837) {
        Some(i) => Some(toggle_of(op_byte(sprms[i]))),
        None => None,
    }
    &&& d.double_strike == match last_index(sprms, n, PropertyGroup::Character, 0x2A53, 0x2A53, 0x2A53, 0x2A53) {
        Some(i) => Some(toggle_of(op_byte(sprms[i]))),
        None => None,
    }
    &&& d.outline == match last_index(sprms, n, PropertyGroup::Character, 0x0838, 0x0838, 0x0838, 0x0838) {
        Some(i) => Some(toggle_of(op_byte(sprms[i]))),
        None => None,
    }
    &&& d.shadow == match last_index(sprms, n, PropertyGroup::Character, 0x0839, 0x0839, 0x0839, 0x0839) {
        Some(i) => Some(toggle_of(op_byte(sprms[i]))),
        None => None,
    }
    &&& d.small_caps == match last_index(sprms, n, PropertyGroup::Character, 0x083A, 0x083A, 0x083A, 0x083A) {
        Some(i) => Some(toggle_of(op_byte(sprms[i]))),
        None => None,
    }
    &&& d.caps == match last_index(sprms, n, PropertyGroup::Character, 0x083B, 0x083B, 0x083B, 0x083B) {
        Some(i) => Some(toggle_of(op_byte(sprms[i]))),
        None => None,
    }
    &&& d.hidden == match last_index(sprms, n, PropertyGroup::Character, 0x083C, 0x083C, 0x083C, 0x083C) {
        Some(i) => Some(toggle_of(op_byte(sprms[i]))),
        None => None,
    }
    &&& d.imprint == match last_index(sprms, n, PropertyGroup::Character, 0x0854, 0x0854, 0x0854, 0x0854) {
        Some(i) => Some(toggle_of(op_byte(sprms[i]))),
        None => None,
    }
    &&& d.emboss == match last_index(sprms, n, PropertyGroup::Character, 0x0858, 0x0858, 0x0858, 0x0858) {
        Some(i) => Some(toggle_of(op_byte(sprms[i]))),
        None => None,
    }
    &&& d.special == match last_index(sprms, n, PropertyGroup::Character, 0x0855, 0x0855, 0x0855, 0x0855) {
        Some(i) => Some(toggle_of(op_byte(sprms[i]))),
        None => None,
    }
    &&& d.object == match last_index(sprms, n, PropertyGroup::Character, 0x0856, 0x0856, 0x0856, 0x0856) {
        Some(i) => Some(toggle_of(op_byte(sprms[i]))),
        None => None,
    }
    &&& d.bidi == match last_index(sprms, n, PropertyGroup::Character, 0x085A, 0x085A, 0x085A, 0x085A) {
        Some(i) => Some(toggle_of(op_byte(sprms[i]))),
        None => None,
    }
    &&& d.bidi_bold == match last_index(sprms, n, PropertyGroup::Character, 0x085C, 0x085C, 0x085C, 0x085C) {
        Some(i) => Some(toggle_of(op_byte(sprms[i]))),
        None => None,
    }
    &&& d.bidi_italic == match last_index(sprms, n, PropertyGroup::Character, 0x085D, 0x085D, 0x085D, 0x085D) {
        Some(i) => Some(toggle_of(op_byte(sprms[i]))),
        None => None,
    }
    &&& d.complex_scripts == match last_index(sprms, n, PropertyGroup::Character, 0x0882, 0x0882, 0x0882, 0x0882) {
        Some(i) => Some(toggle_of(op_byte(sprms[i]))),
        None => None,
    }
    &&& d.underline == match last_index(sprms, n, PropertyGroup::Character, 0x2A3E, 0x2A3E, 0x2A3E, 0x2A3E) {
        Some(i) => Some(op_byte(sprms[i])),
        None => None,
    }
    &&& d.character_spacing_twips == match last_index(sprms, n, PropertyGroup::Character, 0x8840, 0x8840, 0x8840, 0x8840) {
        Some(i) => Some(op_word(sprms[i]) as i16),
        None => None,
    }
    &&& d.color_index == match last_index(sprms, n, PropertyGroup::Character, 0x2A42, 0x4A60, 0x4A60, 0x4A60) {
        Some(i) => Some(op_byte(sprms[i])),
        None => None,
    }
    &&& d.color_ref == match last_index(sprms, n, PropertyGroup::Character, 0x6870, 0x6870, 0x6870, 0x6870) {
        Some(i) => Some(op_dword(sprms[i])),
        None => None,
    }
    &&& d.underline_color_ref == match last_index(sprms, n, PropertyGroup::Character, 0x6877, 0x6877, 0x6877, 0x6877) {
        Some(i) => Some(op_dword(sprms[i])),
        None => None,
    }
    &&& d.highlight_index == match last_index(sprms, n, PropertyGroup::Character, 0x2A0C, 0x2A0C, 0x2A0C, 0x2A0C) {
        Some(i) => Some(op_byte(sprms[i])),
        None => None,
    }
    &&& d.font_size_half_points == match last_index(sprms, n, PropertyGroup::Character, 0x4A43, 0x4A61, 0x4A61, 0x4A61) {
        Some(i) => Some(op_word(sprms[i])),
        None => None,
    }
    &&& d.baseline_offset_half_points == match last_index(sprms, n, PropertyGroup::Character, 0x4845, 0x4845, 0x4845, 0x4845) {
        Some(i) => Some(op_word(sprms[i]) as i16),
        None => None,
    }
    &&& d.vertical_alignment == match last_index(sprms, n, PropertyGroup::Character, 0x2A48, 0x2A48, 0x2A48, 0x2A48) {
        Some(i) => Some(valign_of(op_byte(sprms[i]))),
        None => None,
    }
    &&& d.font_ascii == match last_index(sprms, n, PropertyGroup::Character, 0x4A4F, 0x4A4F, 0x4A4F, 0x4A4F) {
        Some(i) => Some(op_word(sprms[i])),
        None => None,
    }
    &&& d.font_east_asian == match last_index(sprms, n, PropertyGroup::Character, 0x4A50, 0x4A50, 0x4A50, 0x4A50) {
        Some(i) => Some(op_word(sprms[i])),
        None => None,
    }
    &&& d.font_other == match last_index(sprms, n, PropertyGroup::Character, 0x4A51, 0x4A51, 0x4A51, 0x4A51) {
        Some(i) => Some(op_word(sprms[i])),
        None => None,
    }
    &&& d.font_bidi == match last_index(sprms, n, PropertyGroup::Character, 0x4A5E, 0x4A5E, 0x4A5E, 0x4A5E) {
        Some(i) => Some(op_word(sprms[i])),
        None => None,
    }
    &&& d.language_ascii == match last_index(sprms, n, PropertyGroup::Character, 0x486D, 0x4873, 0x4873, 0x4873) {
        Some(i) => Some(op_word(sprms[i])),
        None => None,
    }
    &&& d.language_east_asian == match last_index(sprms, n, PropertyGroup::Character, 0x486E, 0x4874, 0x4874, 0x4874) {
        Some(i) => Some(op_word(sprms[i])),
        None => None,
    }
    &&& d.language_bidi == match last_index(sprms, n, PropertyGroup::Character, 0x485F, 0x485F, 0x485F, 0x485F) {
        Some(i) => Some(op_word(sprms[i])),
        None => None,
    }
    &&& d.plain == (last_index(sprms, n, PropertyGroup::Character, 0x2A33, 0x2A33, 0x2A33, 0x2A33) is Some)
    &&& d.unsupported_opcodes@ == character_unknown_opcodes(sprms, n)
    &&& d.other_group_opcodes@ == foreign_opcodes(sprms, n, PropertyGroup::Character)
}

/// Whether a paragraph SPRM `s` has a valid operand.
pub open spec fn paragraph_operand_ok(s: Sprm) -> bool {
    match s.opcode {
        0x4600 => word_ok(s),
        0x2403 | 0x2461 => byte_ok(s) && op_byte(s) <= 9,
        0x2405 => bool_ok(s),
        0x2406 => bool_ok(s),
        0x2407 => bool_ok(s),
        0x260A => byte_ok(s),
        0x460B => word_ok(s),
        0x840E | 0x845D => word_ok(s),
        0x840F | 0x845E | 0x4610 | 0x465F => word_ok(s),
        0x8411 | 0x8460 => word_ok(s),
        0x6412 => dword_ok(s) && (le_u16(op(s), 2) == 0 || le_u16(op(s), 2) == 1),
        0xA413 => word_ok(s) && op_word(s) <= 0x7BC0,
        0xA414 => word_ok(s) && op_word(s) <= 0x7BC0,
        0x2416 => bool_ok(s),
        0x2417 => bool_ok(s),
        0x2640 => byte_ok(s) && op_byte(s) <= 9,
        0x2441 => bool_ok(s),
        0x6649 => dword_ok(s) && op_sdword(s) >= 0,
        0x664A => dword_ok(s),
        0x244B => bool_ok(s),
        0x244C => bool_ok(s),
        0x245B => bool_ok(s),
        0x245C => bool_ok(s),
        0x246D => bool_ok(s),
        0x2470 => bool_ok(s),
        0xC60D => tab_ok(op(s), false),
        0xC615 => tab_ok(op(s), true),
        _ => true,
    }
}

/// Whether `s` belongs to another family or has a valid paragraph operand.
pub open spec fn paragraph_sprm_ok(s: Sprm) -> bool {
    s.group != PropertyGroup::Paragraph || paragraph_operand_ok(s)
}

/// Whether `opcode` is interpreted as a paragraph property.
pub open spec fn paragraph_known(opcode: u16) -> bool {
    opcode == 0x2403
        || opcode == 0x2405
        || opcode == 0x2406
        || opcode == 0x2407
        || opcode == 0x2416
        || opcode == 0x2417
        || opcode == 0x2441
        || opcode == 0x244B
        || opcode == 0x244C
        || opcode == 0x245B
        || opcode == 0x245C
        || opcode == 0x2461
        || opcode == 0x246D
        || opcode == 0x2470
        || opcode == 0x260A
        || opcode == 0x2640
        || opcode == 0x4600
        || opcode == 0x460B
        || opcode == 0x4610
        || opcode == 0x465F
        || opcode == 0x6412
        || opcode == 0x6649
        || opcode == 0x664A
        || opcode == 0x840E
        || opcode == 0x840F
        || opcode == 0x8411
        || opcode == 0x845D
        || opcode == 0x845E
        || opcode == 0x8460
        || opcode == 0xA413
        || opcode == 0xA414
        || opcode == 0xC60D
        || opcode == 0xC615
}

/// The opcodes of the first `n` SPRMs that are paragraph SPRMs this parser does not interpret.
pub open spec fn paragraph_unknown_opcodes(sprms: Seq<Sprm>, n: int) -> Seq<u16>
    decreases n,
{
    if n <= 0 {
        seq![]
    } else if sprms[n - 1].group == PropertyGroup::Paragraph && !paragraph_known(sprms[n - 1].opcode) {
        paragraph_unknown_opcodes(sprms, n - 1).push(sprms[n - 1].opcode)
    } else {
        paragraph_unknown_opcodes(sprms, n - 1)
    }
}

/// Whether `d` holds, for each paragraph property, the value given by the last
/// of the first `n` SPRMs that sets it, and lists the opcodes it does not interpret.
pub open spec fn paragraph_fields_match(d: ParagraphPropertyDelta, sprms: Seq<Sprm>, n: int) -> bool {
    &&& d.style_index == match last_index(sprms, n, PropertyGroup::Paragraph, 0x4600, 0x4600, 0x4600, 0x4600) {
        Some(i) => Some(op_word(sprms[i])),
        None => None,
    }
    &&& d.justification == match last_index(sprms, n, PropertyGroup::Paragraph, 0x2403, 0x2461, 0x2461, 0x2461) {
        Some(i) => Some(op_byte(sprms[i])),
        None => None,
    }
    &&& d.keep_together == match last_index(sprms, n, PropertyGroup::Paragraph, 0x2405, 0x2405, 0x2405, 0x2405) {
        Some(i) => Some(op_byte(sprms[i]) == 1),
        None => None,
    }
    &&& d.keep_with_next == match last_index(sprms, n, PropertyGroup::Paragraph, 0x2406, 0x2406, 0x2406, 0x2406) {
        Some(i) => Some(op_byte(sprms[i]) == 1),
        None => None,
    }
    &&& d.page_break_before == match last_index(sprms, n, PropertyGroup::Paragraph, 0x2407, 0x2407, 0x2407, 0x2407) {
        Some(i) => Some(op_byte(sprms[i]) == 1),
        None => None,
    }
    &&& d.list_level == match last_index(sprms, n, PropertyGroup::Paragraph, 0x260A, 0x260A, 0x260A, 0x260A) {
        Some(i) => Some(op_byte(sprms[i])),
        None => None,
    }
    &&& d.list_id == match last_index(sprms, n, PropertyGroup::Paragraph, 0x460B, 0x460B, 0x460B, 0x460B) {
        Some(i) => Some(op_word(sprms[i]) as i16),
        None => None,
    }
    &&& d.indent_right_twips == match last_index(sprms, n, PropertyGroup::Paragraph, 0x840E, 0x845D, 0x845D, 0x845D) {
        Some(i) => Some(op_word(sprms[i]) as i16),
        None => None,
    }
    &&& d.indent_left_twips == match last_index(sprms, n, PropertyGroup::Paragraph, 0x840F, 0x845E, 0x4610, 0x465F) {
        Some(i) => Some(op_word(sprms[i]) as i16),
        None => None,
    }
    &&& d.first_line_indent_twips == match last_index(sprms, n, PropertyGroup::Paragraph, 0x8411, 0x8460, 0x8460, 0x8460) {
        Some(i) => Some(op_word(sprms[i]) as i16),
        None => None,
    }
    &&& d.line_spacing == match last_index(sprms, n, PropertyGroup::Paragraph, 0x6412, 0x6412, 0x6412, 0x6412) {
        Some(i) => Some(LineSpacing { value: op_word(sprms[i]) as i16, multiple: le_u16(op(sprms[i]), 2) == 1 }),
        None => None,
    }
    &&& d.space_before_twips == match last_index(sprms, n, PropertyGroup::Paragraph, 0xA413, 0xA413, 0xA413, 0xA413) {
        Some(i) => Some(op_word(sprms[i])),
        None => None,
    }
    &&& d.space_after_twips == match last_index(sprms, n, PropertyGroup::Paragraph, 0xA414, 0xA414, 0xA414, 0xA414) {
        Some(i) => Some(op_word(sprms[i])),
        None => None,
    }
    &&& d.in_table == match last_index(sprms, n, PropertyGroup::Paragraph, 0x2416, 0x2416, 0x2416, 0x2416) {
        Some(i) => Some(op_byte(sprms[i]) == 1),
        None => None,
    }
    &&& d.table_terminating_paragraph == match last_index(sprms, n, PropertyGroup::Paragraph, 0x2417, 0x2417, 0x2417, 0x2417) {
        Some(i) => Some(op_byte(sprms[i]) == 1),
        None => None,
    }
    &&& d.outline_level == match last_index(sprms, n, PropertyGroup::Paragraph, 0x2640, 0x2640, 0x2640, 0x2640) {
        Some(i) => Some(op_byte(sprms[i])),
        None => None,
    }
    &&& d.bidi == match last_index(sprms, n, PropertyGroup::Paragraph, 0x2441, 0x2441, 0x2441, 0x2441) {
        Some(i) => Some(op_byte(sprms[i]) == 1),
        None => None,
    }
    &&& d.table_depth == match last_index(sprms, n, PropertyGroup::Paragraph, 0x6649, 0x6649, 0x6649, 0x6649) {
        Some(i) => Some(op_sdword(sprms[i])),
        None => None,
    }
    &&& d.table_depth_delta == match last_index(sprms, n, PropertyGroup::Paragraph, 0x664A, 0x664A, 0x664A, 0x664A) {
        Some(i) => Some(op_sdword(sprms[i])),
        None => None,
    }
    &&& d.inner_table_cell == match last_index(sprms, n, PropertyGroup::Paragraph, 0x244B, 0x244B, 0x244B, 0x244B) {
        Some(i) => Some(op_byte(sprms[i]) == 1),
        None => None,
    }
    &&& d.inner_table_terminating_paragraph == match last_index(sprms, n, PropertyGroup::Paragraph, 0x244C, 0x244C, 0x244C, 0x244C) {
        Some(i) => Some(op_byte(sprms[i]) == 1),
        None => None,
    }
    &&& d.automatic_space_before == match last_index(sprms, n, PropertyGroup::Paragraph, 0x245B, 0x245B, 0x245B, 0x245B) {
        Some(i) => Some(op_byte(sprms[i]) == 1),
        None => None,
    }
    &&& d.automatic_space_after == match last_index(sprms, n, PropertyGroup::Paragraph, 0x245C, 0x245C, 0x245C, 0x245C) {
        Some(i) => Some(op_byte(sprms[i]) == 1),
        None => None,
    }
    &&& d.contextual_spacing == match last_index(sprms, n, PropertyGroup::Paragraph, 0x246D, 0x246D, 0x246D, 0x246D) {
        Some(i) => Some(op_byte(sprms[i]) == 1),
        None => None,
    }
    &&& d.mirror_indents == match last_index(sprms, n, PropertyGroup::Paragraph, 0x2470, 0x2470, 0x2470, 0x2470) {
        Some(i) => Some(op_byte(sprms[i]) == 1),
        None => None,
    }
    &&& d.tab_changes@.len() == tab_sprms(sprms, n).len()
    &&& forall|k: int| 0 <= k < d.tab_changes@.len() ==> #[trigger] tab_change_matches(d.tab_changes@[k], tab_sprms(sprms, n)[k])
    &&& d.unsupported_opcodes@ == paragraph_unknown_opcodes(sprms, n)
    &&& d.other_group_opcodes@ == foreign_opcodes(sprms, n, PropertyGroup::Paragraph)
}

/// How one SPRM `s` changes the last-wins character properties from `d0` to `d1`.
pub open spec fn character_step(d0: CharacterPropertyDelta, d1: CharacterPropertyDelta, s: Sprm) -> bool {
    &&& d1.style_index == (if s.group == PropertyGroup::Character && (s.opcode == 0x4A30) {
        Some(op_word(s))
    } else {
        d0.style_index
    })
    &&& d1.picture_location == (if s.group == PropertyGroup::Character && (s.opcode == 0x6A03) {
        Some(op_dword(s))
    } else {
        d0.picture_location
    })
    &&& d1.binary_data == (if s.group == PropertyGroup::Character && (s.opcode == 0x0806) {
        Some(op_byte(s) == 1)
    } else {
        d0.binary_data
    })
    &&& d1.ole2 == (if s.group == PropertyGroup::Character && (s.opcode == 0x080A) {
        Some(op_byte(s) == 1)
    } else {
        d0.ole2
    })
    &&& d1.bold == (if s.group == PropertyGroup::Character && (s.opcode == 0x0835) {
        Some(toggle_of(op_byte(s)))
    } else {
        d0.bold
    })
    &&& d1.italic == (if s.group == PropertyGroup::Character && (s.opcode == 0x0836) {
        Some(toggle_of(op_byte(s)))
    } else {
        d0.italic
    })
    &&& d1.strike == (if s.group == PropertyGroup::Character && (s.opcode == 0x0837) {
        Some(toggle_of(op_byte(s)))
    } else {
        d0.strike
    })
    &&& d1.double_strike == (if s.group == PropertyGroup::Character && (s.opcode == 0x2A53) {
        Some(toggle_of(op_byte(s)))
    } else {
        d0.double_strike
    })
    &&& d1.outline == (if s.group == PropertyGroup::Character && (s.opcode == 0x0838) {
        Some(toggle_of(op_byte(s)))
    } else {
        d0.outline
    })
    &&& d1.shadow == (if s.group == PropertyGroup::Character && (s.opcode == 0x0839) {
        Some(toggle_of(op_byte(s)))
    } else {
        d0.shadow
    })
    &&& d1.small_caps == (if s.group == PropertyGroup::Character && (s.opcode == 0x083A) {
        Some(toggle_of(op_byte(s)))
    } else {
        d0.small_caps
    })
    &&& d1.caps == (if s.group == PropertyGroup::Character && (s.opcode == 0x083B) {
        Some(toggle_of(op_byte(s)))
    } else {
        d0.caps
    })
    &&& d1.hidden == (if s.group == PropertyGroup::Character && (s.opcode == 0x083C) {
        Some(toggle_of(op_byte(s)))
    } else {
        d0.hidden
    })
    &&& d1.imprint == (if s.group == PropertyGroup::Character && (s.opcode == 0x0854) {
        Some(toggle_of(op_byte(s)))
    } else {
        d0.imprint
    })
    &&& d1.emboss == (if s.group == PropertyGroup::Character && (s.opcode == 0x0858) {
        Some(toggle_of(op_byte(s)))
    } else {
        d0.emboss
    })
    &&& d1.special == (if s.group == PropertyGroup::Character && (s.opcode == 0x0855) {
        Some(toggle_of(op_byte(s)))
    } else {
        d0.special
    })
    &&& d1.object == (if s.group == PropertyGroup::Character && (s.opcode == 0x0856) {
        Some(toggle_of(op_byte(s)))
    } else {
        d0.object
    })
    &&& d1.bidi == (if s.group == PropertyGroup::Character && (s.opcode == 0x085A) {
        Some(toggle_of(op_byte(s)))
    } else {
        d0.bidi
    })
    &&& d1.bidi_bold == (if s.group == PropertyGroup::Character && (s.opcode == 0x085C) {
        Some(toggle_of(op_byte(s)))
    } else {
        d0.bidi_bold
    })
    &&& d1.bidi_italic == (if s.group == PropertyGroup::Character && (s.opcode == 0x085D) {
        Some(toggle_of(op_byte(s)))
    } else {
        d0.bidi_italic
    })
    &&& d1.complex_scripts == (if s.group == PropertyGroup::Character && (s.opcode == 0x0882) {
        Some(toggle_of(op_byte(s)))
    } else {
        d0.complex_scripts
    })
    &&& d1.underline == (if s.group == PropertyGroup::Character && (s.opcode == 0x2A3E) {
        Some(op_byte(s))
    } else {
        d0.underline
    })
    &&& d1.character_spacing_twips == (if s.group == PropertyGroup::Character && (s.opcode == 0x8840) {
        Some(op_word(s) as i16)
    } else {
        d0.character_spacing_twips
    })
    &&& d1.color_index == (if s.group == PropertyGroup::Character && (s.opcode == 0x2A42 || s.opcode == 0x4A60) {
        Some(op_byte(s))
    } else {
        d0.color_index
    })
    &&& d1.color_ref == (if s.group == PropertyGroup::Character && (s.opcode == 0x6870) {
        Some(op_dword(s))
    } else {
        d0.color_ref
    })
    &&& d1.underline_color_ref == (if s.group == PropertyGroup::Character && (s.opcode == 0x6877) {
        Some(op_dword(s))
    } else {
        d0.underline_color_ref
    })
    &&& d1.highlight_index == (if s.group == PropertyGroup::Character && (s.opcode == 0x2A0C) {
        Some(op_byte(s))
    } else {
        d0.highlight_index
    })
    &&& d1.font_size_half_points == (if s.group == PropertyGroup::Character && (s.opcode == 0x4A43 || s.opcode == 0x4A61) {
        Some(op_word(s))
    } else {
        d0.font_size_half_points
    })
    &&& d1.baseline_offset_half_points == (if s.group == PropertyGroup::Character && (s.opcode == 0x4845) {
        Some(op_word(s) as i16)
    } else {
        d0.baseline_offset_half_points
    })
    &&& d1.vertical_alignment == (if s.group == PropertyGroup::Character && (s.opcode == 0x2A48) {
        Some(valign_of(op_byte(s)))
    } else {
        d0.vertical_alignment
    })
    &&& d1.font_ascii == (if s.group == PropertyGroup::Character && (s.opcode == 0x4A4F) {
        Some(op_word(s))
    } else {
        d0.font_ascii
    })
    &&& d1.font_east_asian == (if s.group == PropertyGroup::Character && (s.opcode == 0x4A50) {
        Some(op_word(s))
    } else {
        d0.font_east_asian
    })
    &&& d1.font_other == (if s.group == PropertyGroup::Character && (s.opcode == 0x4A51) {
        Some(op_word(s))
    } else {
        d0.font_other
    })
    &&& d1.font_bidi == (if s.group == PropertyGroup::Character && (s.opcode == 0x4A5E) {
        Some(op_word(s))
    } else {
        d0.font_bidi
    })
    &&& d1.language_ascii == (if s.group == PropertyGroup::Character && (s.opcode == 0x486D || s.opcode == 0x4873) {
        Some(op_word(s))
    } else {
        d0.language_ascii
    })
    &&& d1.language_east_asian == (if s.group == PropertyGroup::Character && (s.opcode == 0x486E || s.opcode == 0x4874) {
        Some(op_word(s))
    } else {
        d0.language_east_asian
    })
    &&& d1.language_bidi == (if s.group == PropertyGroup::Character && (s.opcode == 0x485F) {
        Some(op_word(s))
    } else {
        d0.language_bidi
    })
}

/// How one SPRM `s` changes the last-wins paragraph properties from `d0` to `d1`.
pub open spec fn paragraph_step(d0: ParagraphPropertyDelta, d1: ParagraphPropertyDelta, s: Sprm) -> bool {
    &&& d1.style_index == (if s.group == PropertyGroup::Paragraph && (s.opcode == 0x4600) {
        Some(op_word(s))
    } else {
        d0.style_index
    })
    &&& d1.justification == (if s.group == PropertyGroup::Paragraph && (s.opcode == 0x2403 || s.opcode == 0x2461) {
        Some(op_byte(s))
    } else {
        d0.justification
    })
    &&& d1.keep_together == (if s.group == PropertyGroup::Paragraph && (s.opcode == 0x2405) {
        Some(op_byte(s) == 1)
    } else {
        d0.keep_together
    })
    &&& d1.keep_with_next == (if s.group == PropertyGroup::Paragraph && (s.opcode == 0x2406) {
        Some(op_byte(s) == 1)
    } else {
        d0.keep_with_next
    })
    &&& d1.page_break_before == (if s.group == PropertyGroup::Paragraph && (s.opcode == 0x2407) {
        Some(op_byte(s) == 1)
    } else {
        d0.page_break_before
    })
    &&& d1.list_level == (if s.group == PropertyGroup::Paragraph && (s.opcode == 0x260A) {
        Some(op_byte(s))
    } else {
        d0.list_level
    })
    &&& d1.list_id == (if s.group == PropertyGroup::Paragraph && (s.opcode == 0x460B) {
        Some(op_word(s) as i16)
    } else {
        d0.list_id
    })
    &&& d1.indent_right_twips == (if s.group == PropertyGroup::Paragraph && (s.opcode == 0x840E || s.opcode == 0x845D) {
        Some(op_word(s) as i16)
    } else {
        d0.indent_right_twips
    })
    &&& d1.indent_left_twips == (if s.group == PropertyGroup::Paragraph && (s.opcode == 0x840F || s.opcode == 0x845E || s.opcode == 0x4610 || s.opcode == 0x465F) {
        Some(op_word(s) as i16)
    } else {
        d0.indent_left_twips
    })
    &&& d1.first_line_indent_twips == (if s.group == PropertyGroup::Paragraph && (s.opcode == 0x8411 || s.opcode == 0x8460) {
        Some(op_word(s) as i16)
    } else {
        d0.first_line_indent_twips
    })
    &&& d1.line_spacing == (if s.group == PropertyGroup::Paragraph && (s.opcode == 0x6412) {
        Some(LineSpacing { value: op_word(s) as i16, multiple: le_u16(op(s), 2) == 1 })
    } else {
        d0.line_spacing
    })
    &&& d1.space_before_twips == (if s.group == PropertyGroup::Paragraph && (s.opcode == 0xA413) {
        Some(op_word(s))
    } else {
        d0.space_before_twips
    })
    &&& d1.space_after_twips == (if s.group == PropertyGroup::Paragraph && (s.opcode == 0xA414) {
        Some(op_word(s))
    } else {
        d0.space_after_twips
    })
    &&& d1.in_table == (if s.group == PropertyGroup::Paragraph && (s.opcode == 0x2416) {
        Some(op_byte(s) == 1)
    } else {
        d0.in_table
    })
    &&& d1.table_terminating_paragraph == (if s.group == PropertyGroup::Paragraph && (s.opcode == 0x2417) {
        Some(op_byte(s) == 1)
    } else {
        d0.table_terminating_paragraph
    })
    &&& d1.outline_level == (if s.group == PropertyGroup::Paragraph && (s.opcode == 0x2640) {
        Some(op_byte(s))
    } else {
        d0.outline_level
    })
    &&& d1.bidi == (if s.group == PropertyGroup::Paragraph && (s.opcode == 0x2441) {
        Some(op_byte(s) == 1)
    } else {
        d0.bidi
    })
    &&& d1.table_depth == (if s.group == PropertyGroup::Paragraph && (s.opcode == 0x6649) {
        Some(op_sdword(s))
    } else {
        d0.table_depth
    })
    &&& d1.table_depth_delta == (if s.group == PropertyGroup::Paragraph && (s.opcode == 0x664A) {
        Some(op_sdword(s))
    } else {
        d0.table_depth_delta
    })
    &&& d1.inner_table_cell == (if s.group == PropertyGroup::Paragraph && (s.opcode == 0x244B) {
        Some(op_byte(s) == 1)
    } else {
        d0.inner_table_cell
    })
    &&& d1.inner_table_terminating_paragraph == (if s.group == PropertyGroup::Paragraph && (s.opcode == 0x244C) {
        Some(op_byte(s) == 1)
    } else {
        d0.inner_table_terminating_paragraph
    })
    &&& d1.automatic_space_before == (if s.group == PropertyGroup::Paragraph && (s.opcode == 0x245B) {
        Some(op_byte(s) == 1)
    } else {
        d0.automatic_space_before
    })
    &&& d1.automatic_space_after == (if s.group == PropertyGroup::Paragraph && (s.opcode == 0x245C) {
        Some(op_byte(s) == 1)
    } else {
        d0.automatic_space_after
    })
    &&& d1.contextual_spacing == (if s.group == PropertyGroup::Paragraph && (s.opcode == 0x246D) {
        Some(op_byte(s) == 1)
    } else {
        d0.contextual_spacing
    })
    &&& d1.mirror_indents == (if s.group == PropertyGroup::Paragraph && (s.opcode == 0x2470) {
        Some(op_byte(s) == 1)
    } else {
        d0.mirror_indents
    })
}

/// One more SPRM extends the last-wins character properties of a prefix.
proof fn lemma_character_step(
    d0: CharacterPropertyDelta,
    d1: CharacterPropertyDelta,
    sprms: Seq<Sprm>,
    i: int,
)
    requires
        0 <= i < sprms.len(),
        character_fields_match(d0, sprms, i),
        character_step(d0, d1, sprms[i]),
        d1.plain == (d0.plain || (sprms[i].group == PropertyGroup::Character && sprms[i].opcode == 0x2A33)),
        d1.unsupported_opcodes@ == (if sprms[i].group == PropertyGroup::Character && !character_known(sprms[i].opcode) {
            d0.unsupported_opcodes@.push(sprms[i].opcode)
        } else {
            d0.unsupported_opcodes@
        }),
        d1.other_group_opcodes@ == (if sprms[i].group != PropertyGroup::Character {
            d0.other_group_opcodes@.push(sprms[i].opcode)
        } else {
            d0.other_group_opcodes@
        }),
    ensures
        character_fields_match(d1, sprms, i + 1),
{
}

/// One more SPRM extends the last-wins paragraph properties of a prefix.
proof fn lemma_paragraph_step(
    d0: ParagraphPropertyDelta,
    d1: ParagraphPropertyDelta,
    sprms: Seq<Sprm>,
    i: int,
)
    requires
        0 <= i < sprms.len(),
        paragraph_fields_match(d0, sprms, i),
        paragraph_step(d0, d1, sprms[i]),
        (if sprms[i].group == PropertyGroup::Paragraph && (sprms[i].opcode == 0xC60D || sprms[i].opcode == 0xC615) {
            d1.tab_changes@.len() == d0.tab_changes@.len() + 1 && d1.tab_changes@.drop_last() == d0.tab_changes@
                && tab_change_matches(d1.tab_changes@.last(), sprms[i])
        } else {
            d1.tab_changes@ == d0.tab_changes@
        }),
        d1.unsupported_opcodes@ == (if sprms[i].group == PropertyGroup::Paragraph && !paragraph_known(sprms[i].opcode) {
            d0.unsupported_opcodes@.push(sprms[i].opcode)
        } else {
            d0.unsupported_opcodes@
        }),
        d1.other_group_opcodes@ == (if sprms[i].group != PropertyGroup::Paragraph {
            d0.other_group_opcodes@.push(sprms[i].opcode)
        } else {
            d0.other_group_opcodes@
        }),
    ensures
        paragraph_fields_match(d1, sprms, i + 1),
{
    let ts = tab_sprms(sprms, i + 1);
    assert forall|k: int| 0 <= k < d1.tab_changes@.len() implies #[trigger] tab_change_matches(d1.tab_changes@[k], ts[k]) by {
        if d1.tab_changes@.len() == d0.tab_changes@.len() + 1 && k < d0.tab_changes@.len() {
            assert(d1.tab_changes@.drop_last()[k] == d1.tab_changes@[k]);
        }
    }
}

// ---- Executable decoding.

/// The error for an invalid known operand.
fn invalid_operand(what: &str) -> (res: DocError)
    ensures
        res.kind() == ErrorKind::InvalidFormatting,
{
    DocError::InvalidFormatting(message(what))
}

/// The single operand byte.
fn byte(sprm: &Sprm) -> (res: Result<u8>)
    ensures
        res is Ok <==> byte_ok(*sprm),
        res matches Ok(v) ==> v == op_byte(*sprm),
        res is Err ==> res->Err_0.kind() == ErrorKind::InvalidFormatting,
{
    if sprm.operand.len() != 1 {
        return Err(invalid_operand("SPRM operand is not exactly one byte"));
    }
    Ok(sprm.operand[0])
}

/// The operand word.
fn word(sprm: &Sprm) -> (res: Result<u16>)
    ensures
        res is Ok <==> word_ok(*sprm),
        res matches Ok(v) ==> v == op_word(*sprm),
        res is Err ==> res->Err_0.kind() == ErrorKind::InvalidFormatting,
{
    if sprm.operand.len() != 2 {
        return Err(invalid_operand("SPRM operand is not exactly two bytes"));
    }
    Ok(read_u16_le(sprm.operand.as_slice(), 0))
}

/// The signed operand word.
fn signed_word(sprm: &Sprm) -> (res: Result<i16>)
    ensures
        res is Ok <==> word_ok(*sprm),
        res matches Ok(v) ==> v == op_word(*sprm) as i16,
        res is Err ==> res->Err_0.kind() == ErrorKind::InvalidFormatting,
{
    let value = word(sprm)?;
    Ok(value as i16)
}

/// The operand double word.
fn dword(sprm: &Sprm) -> (res: Result<u32>)
    ensures
        res is Ok <==> dword_ok(*sprm),
        res matches Ok(v) ==> v == op_dword(*sprm),
        res is Err ==> res->Err_0.kind() == ErrorKind::InvalidFormatting,
{
    if sprm.operand.len() != 4 {
        return Err(invalid_operand("SPRM operand is not exactly four bytes"));
    }
    Ok(read_u32_le(sprm.operand.as_slice(), 0))
}

/// The signed operand double word.
fn signed_dword(sprm: &Sprm) -> (res: Result<i32>)
    ensures
        res is Ok <==> dword_ok(*sprm),
        res matches Ok(v) ==> v == op_sdword(*sprm),
        res is Err ==> res->Err_0.kind() == ErrorKind::InvalidFormatting,
{
    if sprm.operand.len() != 4 {
        return Err(invalid_operand("SPRM operand is not exactly four bytes"));
    }
    Ok(read_i32_le(sprm.operand.as_slice(), 0))
}

/// The `Bool8` operand.
fn bool8(sprm: &Sprm) -> (res: Result<bool>)
    ensures
        res is Ok <==> bool_ok(*sprm),
        res matches Ok(v) ==> v == (op_byte(*sprm) == 1),
        res is Err ==> res->Err_0.kind() == ErrorKind::InvalidFormatting,
{
    let value = byte(sprm)?;
    if value > 1 {
        return Err(invalid_operand("invalid Bool8 value"));
    }
    Ok(value == 1)
}

/// The toggle operand.
fn toggle(sprm: &Sprm) -> (res: Result<ToggleValue>)
    ensures
        res is Ok <==> toggle_ok(*sprm),
        res matches Ok(v) ==> v == toggle_of(op_byte(*sprm)),
        res is Err ==> res->Err_0.kind() == ErrorKind::InvalidFormatting,
{
    match byte(sprm)? {
        0x00 => Ok(ToggleValue::Off),
        0x01 => Ok(ToggleValue::On),
        0x80 => Ok(ToggleValue::SameAsStyle),
        0x81 => Ok(ToggleValue::OppositeStyle),
        _ => Err(invalid_operand("invalid toggle value")),
    }
}

/// A one-byte operand of at most 9.
fn byte_at_most_nine(sprm: &Sprm) -> (res: Result<u8>)
    ensures
        res is Ok <==> byte_ok(*sprm) && op_byte(*sprm) <= 9,
        res matches Ok(v) ==> v == op_byte(*sprm),
        res is Err ==> res->Err_0.kind() == ErrorKind::InvalidFormatting,
{
    let value = byte(sprm)?;
    if value > 9 {
        return Err(invalid_operand("operand value exceeds 9"));
    }
    Ok(value)
}

/// A color index of at most 16.
fn color_index(sprm: &Sprm) -> (res: Result<u8>)
    ensures
        res is Ok <==> byte_ok(*sprm) && op_byte(*sprm) <= 16,
        res matches Ok(v) ==> v == op_byte(*sprm),
        res is Err ==> res->Err_0.kind() == ErrorKind::InvalidFormatting,
{
    let value = byte(sprm)?;
    if value > 16 {
        return Err(invalid_operand("color index exceeds 16"));
    }
    Ok(value)
}

/// A font size in half points, 2 through 3276.
fn font_size(sprm: &Sprm) -> (res: Result<u16>)
    ensures
        res is Ok <==> word_ok(*sprm) && 2 <= op_word(*sprm) <= 3276,
        res matches Ok(v) ==> v == op_word(*sprm),
        res is Err ==> res->Err_0.kind() == ErrorKind::InvalidFormatting,
{
    let value = word(sprm)?;
    if value < 2 || value > 3276 {
        return Err(invalid_operand("font size is outside 2..=3276"));
    }
    Ok(value)
}

/// A baseline offset in half points, -3168 through 3168.
fn baseline_offset(sprm: &Sprm) -> (res: Result<i16>)
    ensures
        res is Ok <==> word_ok(*sprm) && -3168 <= op_word(*sprm) as i16 <= 3168,
        res matches Ok(v) ==> v == op_word(*sprm) as i16,
        res is Err ==> res->Err_0.kind() == ErrorKind::InvalidFormatting,
{
    let value = signed_word(sprm)?;
    if value < -3168 || value > 3168 {
        return Err(invalid_operand("baseline offset is out of range"));
    }
    Ok(value)
}

/// The superscript/subscript state.
fn vertical_alignment(sprm: &Sprm) -> (res: Result<VerticalAlignment>)
    ensures
        res is Ok <==> byte_ok(*sprm) && op_byte(*sprm) <= 2,
        res matches Ok(v) ==> v == valign_of(op_byte(*sprm)),
        res is Err ==> res->Err_0.kind() == ErrorKind::InvalidFormatting,
{
    match byte(sprm)? {
        0 => Ok(VerticalAlignment::Baseline),
        1 => Ok(VerticalAlignment::Superscript),
        2 => Ok(VerticalAlignment::Subscript),
        _ => Err(invalid_operand("invalid vertical alignment")),
    }
}

/// The line spacing: a value and a mode of 0 or 1.
fn line_spacing(sprm: &Sprm) -> (res: Result<LineSpacing>)
    ensures
        res is Ok <==> dword_ok(*sprm) && (le_u16(op(*sprm), 2) == 0 || le_u16(op(*sprm), 2) == 1),
        res matches Ok(v) ==> v == (LineSpacing { value: op_word(*sprm) as i16, multiple: le_u16(op(*sprm), 2) == 1 }),
        res is Err ==> res->Err_0.kind() == ErrorKind::InvalidFormatting,
{
    if sprm.operand.len() != 4 {
        return Err(invalid_operand("SPRM operand is not exactly four bytes"));
    }
    let value = read_u16_le(sprm.operand.as_slice(), 0) as i16;
    let multiple = read_u16_le(sprm.operand.as_slice(), 2);
    if multiple > 1 {
        return Err(invalid_operand("invalid line-spacing mode"));
    }
    Ok(LineSpacing { value, multiple: multiple == 1 })
}

/// Paragraph spacing of at most 0x7BC0 twips.
fn paragraph_spacing(sprm: &Sprm) -> (res: Result<u16>)
    ensures
        res is Ok <==> word_ok(*sprm) && op_word(*sprm) <= 0x7BC0,
        res matches Ok(v) ==> v == op_word(*sprm),
        res is Err ==> res->Err_0.kind() == ErrorKind::InvalidFormatting,
{
    let value = word(sprm)?;
    if value > 0x7BC0 {
        return Err(invalid_operand("paragraph spacing exceeds 0x7BC0"));
    }
    Ok(value)
}

/// A non-negative table depth.
fn table_depth(sprm: &Sprm) -> (res: Result<i32>)
    ensures
        res is Ok <==> dword_ok(*sprm) && op_sdword(*sprm) >= 0,
        res matches Ok(v) ==> v == op_sdword(*sprm),
        res is Err ==> res->Err_0.kind() == ErrorKind::InvalidFormatting,
{
    let value = signed_dword(sprm)?;
    if value < 0 {
        return Err(invalid_operand("negative table depth"));
    }
    Ok(value)
}

/// Reads `count` tab positions at `start`; `None` where one is out of
/// bounds or range, or they do not strictly increase.
fn tab_positions(bytes: &[u8], start: usize, count: usize) -> (res: Option<Vec<i16>>)
    requires
        start <= 0x1000,
        count <= 64,
    ensures
        res is Some <==> tab_positions_ok(bytes@, start as int, count as int),
        res matches Some(v) ==> v@ == Seq::new(count as nat, |k: int| tab_position(bytes@, start as int, k)),
{
    if start + 2 * count > bytes.len() {
        return None;
    }
    let ghost expected = Seq::new(count as nat, |k: int| tab_position(bytes@, start as int, k));
    let mut result: Vec<i16> = Vec::new();
    let mut k: usize = 0;
    while k < count
        invariant
            start + 2 * count <= bytes@.len(),
            start <= 0x1000,
            count <= 64,
            k <= count,
            expected == Seq::new(count as nat, |k: int| tab_position(bytes@, start as int, k)),
            result@ == expected.take(k as int),
            forall|j: int| 0 <= j < k ==> -31680 <= #[trigger] tab_position(bytes@, start as int, j) <= 31680,
            forall|i: int, j: int|
                0 <= i < j < k ==> #[trigger] tab_position(bytes@, start as int, i) < #[trigger] tab_position(
                    bytes@,
                    start as int,
                    j,
                ),
        decreases count - k,
    {
        let position = read_u16_le(bytes, start + 2 * k) as i16;
        assert(position == tab_position(bytes@, start as int, k as int));
        if position < -31680 || position > 31680 {
            return None;
        }
        if k > 0 && result[k - 1] >= position {
            assert(result@[k - 1] == tab_position(bytes@, start as int, k - 1));
            return None;
        }
        proof {
            assert forall|i: int| 0 <= i < k implies tab_position(bytes@, start as int, i) < position by {
                if i < k - 1 {
                    assert(tab_position(bytes@, start as int, i) < tab_position(bytes@, start as int, k - 1));
                }
                assert(result@[k - 1] == tab_position(bytes@, start as int, k - 1));
            }
        }
        result.push(position);
        assert(result@ =~= expected.take(k as int + 1));
        k = k + 1;
    }
    assert(result@ =~= expected);
    Some(result)
}

/// Decodes a tab-change operand; `has_close_ranges` selects `sprmPChgTabs`.
#[verifier::rlimit(40)]
fn tab_change(sprm: &Sprm, has_close_ranges: bool) -> (res: Result<TabChange>)
    ensures
        res is Ok <==> tab_ok(op(*sprm), has_close_ranges),
        res matches Ok(t) ==> tab_change_decoded(t, op(*sprm), has_close_ranges),
        res is Err ==> res->Err_0.kind() == ErrorKind::InvalidFormatting,
{
    let bytes = sprm.operand.as_slice();
    let len = bytes.len();
    let ghost b = bytes@;
    if len < 2 {
        return Err(invalid_operand("truncated tab-change operand"));
    }
    let cb = bytes[0] as usize;
    if cb != 0xFF && len != cb + 1 {
        return Err(invalid_operand("tab-change length does not match its operand"));
    }
    let delete_count = bytes[1] as usize;
    if delete_count > 64 {
        return Err(invalid_operand("tab delete count exceeds 64"));
    }
    let delete_positions_twips = match tab_positions(bytes, 2, delete_count) {
        Some(v) => v,
        None => {
            return Err(invalid_operand("invalid tab delete positions"));
        },
    };
    let mut offset = 2 + 2 * delete_count;
    let delete_close_twips = if has_close_ranges {
        if offset + 2 * delete_count > len {
            return Err(invalid_operand("truncated tab delete-close ranges"));
        }
        let ghost expected = Seq::new(delete_count as nat, |k: int| le_u16(b, tab_close_offset(b) + 2 * k));
        let mut close: Vec<u16> = Vec::new();
        let mut k: usize = 0;
        while k < delete_count
            invariant
                b == bytes@,
                offset == tab_close_offset(b),
                offset + 2 * delete_count <= b.len(),
                delete_count <= 64,
                k <= delete_count,
                expected == Seq::new(delete_count as nat, |k: int| le_u16(b, tab_close_offset(b) + 2 * k)),
                close@ == expected.take(k as int),
            decreases delete_count - k,
        {
            close.push(read_u16_le(bytes, offset + 2 * k));
            assert(close@ =~= expected.take(k as int + 1));
            k = k + 1;
        }
        assert(close@ =~= expected);
        offset = offset + 2 * delete_count;
        Some(close)
    } else {
        None
    };
    if offset >= len {
        return Err(invalid_operand("truncated tab add count"));
    }
    let add_count = bytes[offset] as usize;
    if add_count > 64 {
        return Err(invalid_operand("tab add count exceeds 64"));
    }
    let add_positions = match tab_positions(bytes, offset + 1, add_count) {
        Some(v) => v,
        None => {
            return Err(invalid_operand("invalid tab add positions"));
        },
    };
    let desc = offset + 1 + 2 * add_count;
    if desc + add_count != len {
        return Err(invalid_operand("tab-change operand length does not match its counts"));
    }
    let ghost expected = Seq::new(
        add_count as nat,
        |k: int|
            TabStop {
                position_twips: tab_position(b, tab_add_count_offset(b, has_close_ranges) + 1, k),
                alignment: b[desc + k] & 0x07,
                leader: (b[desc + k] >> 3u8) & 0x07,
            },
    );
    let mut additions: Vec<TabStop> = Vec::new();
    let mut k: usize = 0;
    while k < add_count
        invariant
            b == bytes@,
            b == op(*sprm),
            offset == tab_add_count_offset(b, has_close_ranges),
            add_count == tab_add_count(b, has_close_ranges),
            desc == offset + 1 + 2 * add_count,
            desc == tab_descriptor_offset(b, has_close_ranges),
            desc + add_count == b.len(),
            add_positions@ == Seq::new(add_count as nat, |k: int| tab_position(b, offset + 1, k)),
            k <= add_count,
            expected == Seq::new(
                add_count as nat,
                |k: int|
                    TabStop {
                        position_twips: tab_position(b, tab_add_count_offset(b, has_close_ranges) + 1, k),
                        alignment: b[desc + k] & 0x07,
                        leader: (b[desc + k] >> 3u8) & 0x07,
                    },
            ),
            additions@ == expected.take(k as int),
            forall|j: int| 0 <= j < k ==> #[trigger] b[desc + j] & 0xC0 == 0,
        decreases add_count - k,
    {
        let descriptor = bytes[desc + k];
        if descriptor & 0xC0 != 0 {
            assert(b[tab_descriptor_offset(b, has_close_ranges) + k as int] & 0xC0 != 0);
            return Err(invalid_operand("tab descriptor sets reserved bits"));
        }
        additions.push(TabStop { position_twips: add_positions[k], alignment: descriptor & 0x07, leader: (descriptor >> 3u8) & 0x07 });
        assert(additions@ =~= expected.take(k as int + 1));
        k = k + 1;
    }
    assert(additions@ =~= expected);
    Ok(TabChange { delete_positions_twips, delete_close_twips, additions, extended: cb == 0xFF })
}

// ---- Applying SPRMs.

/// Applies one character-family SPRM that sets a toggle or `Bool8` property.
#[verifier::spinoff_prover]
#[verifier::rlimit(100)]
fn apply_character_flag(result: &mut CharacterPropertyDelta, s: &Sprm) -> (res: Result<()>)
    requires
        s.group == PropertyGroup::Character,
        character_flag_opcode(s.opcode),
    ensures
        res is Ok <==> character_sprm_ok(*s),
        res is Err ==> res->Err_0.kind() == ErrorKind::InvalidFormatting,
        res is Ok ==> final(result).style_index == (if s.group == PropertyGroup::Character && (s.opcode == 0x4A30) {
            Some(op_word(*s))
        } else {
            old(result).style_index
        }),
        res is Ok ==> final(result).picture_location == (if s.group == PropertyGroup::Character && (s.opcode == 0x6A03) {
            Some(op_dword(*s))
        } else {
            old(result).picture_location
        }),
        res is Ok ==> final(result).binary_data == (if s.group == PropertyGroup::Character && (s.opcode == 0x0806) {
            Some(op_byte(*s) == 1)
        } else {
            old(result).binary_data
        }),
        res is Ok ==> final(result).ole2 == (if s.group == PropertyGroup::Character && (s.opcode == 0x080A) {
            Some(op_byte(*s) == 1)
        } else {
            old(result).ole2
        }),
        res is Ok ==> final(result).bold == (if s.group == PropertyGroup::Character && (s.opcode == 0x0835) {
            Some(toggle_of(op_byte(*s)))
        } else {
            old(result).bold
        }),
        res is Ok ==> final(result).italic == (if s.group == PropertyGroup::Character && (s.opcode == 0x0836) {
            Some(toggle_of(op_byte(*s)))
        } else {
            old(result).italic
        }),
        res is Ok ==> final(result).strike == (if s.group == PropertyGroup::Character && (s.opcode == 0x0837) {
            Some(toggle_of(op_byte(*s)))
        } else {
            old(result).strike
        }),
        res is Ok ==> final(result).double_strike == (if s.group == PropertyGroup::Character && (s.opcode == 0x2A53) {
            Some(toggle_of(op_byte(*s)))
        } else {
            old(result).double_strike
        }),
        res is Ok ==> final(result).outline == (if s.group == PropertyGroup::Character && (s.opcode == 0x0838) {
            Some(toggle_of(op_byte(*s)))
        } else {
            old(result).outline
        }),
        res is Ok ==> final(result).shadow == (if s.group == PropertyGroup::Character && (s.opcode == 0x0839) {
            Some(toggle_of(op_byte(*s)))
        } else {
            old(result).shadow
        }),
        res is Ok ==> final(result).small_caps == (if s.group == PropertyGroup::Character && (s.opcode == 0x083A) {
            Some(toggle_of(op_byte(*s)))
        } else {
            old(result).small_caps
        }),
        res is Ok ==> final(result).caps == (if s.group == PropertyGroup::Character && (s.opcode == 0x083B) {
            Some(toggle_of(op_byte(*s)))
        } else {
            old(result).caps
        }),
        res is Ok ==> final(result).hidden == (if s.group == PropertyGroup::Character && (s.opcode == 0x083C) {
            Some(toggle_of(op_byte(*s)))
        } else {
            old(result).hidden
        }),
        res is Ok ==> final(result).imprint == (if s.group == PropertyGroup::Character && (s.opcode == 0x0854) {
            Some(toggle_of(op_byte(*s)))
        } else {
            old(result).imprint
        }),
        res is Ok ==> final(result).emboss == (if s.group == PropertyGroup::Character && (s.opcode == 0x0858) {
            Some(toggle_of(op_byte(*s)))
        } else {
            old(result).emboss
        }),
        res is Ok ==> final(result).special == (if s.group == PropertyGroup::Character && (s.opcode == 0x0855) {
            Some(toggle_of(op_byte(*s)))
        } else {
            old(result).special
        }),
        res is Ok ==> final(result).object == (if s.group == PropertyGroup::Character && (s.opcode == 0x0856) {
            Some(toggle_of(op_byte(*s)))
        } else {
            old(result).object
        }),
        res is Ok ==> final(result).bidi == (if s.group == PropertyGroup::Character && (s.opcode == 0x085A) {
            Some(toggle_of(op_byte(*s)))
        } else {
            old(result).bidi
        }),
        res is Ok ==> final(result).bidi_bold == (if s.group == PropertyGroup::Character && (s.opcode == 0x085C) {
            Some(toggle_of(op_byte(*s)))
        } else {
            old(result).bidi_bold
        }),
        res is Ok ==> final(result).bidi_italic == (if s.group == PropertyGroup::Character && (s.opcode == 0x085D) {
            Some(toggle_of(op_byte(*s)))
        } else {
            old(result).bidi_italic
        }),
        res is Ok ==> final(result).complex_scripts == (if s.group == PropertyGroup::Character && (s.opcode == 0x0882) {
            Some(toggle_of(op_byte(*s)))
        } else {
            old(result).complex_scripts
        }),
        res is Ok ==> final(result).underline == (if s.group == PropertyGroup::Character && (s.opcode == 0x2A3E) {
            Some(op_byte(*s))
        } else {
            old(result).underline
        }),
        res is Ok ==> final(result).character_spacing_twips == (if s.group == PropertyGroup::Character && (s.opcode == 0x8840) {
            Some(op_word(*s) as i16)
        } else {
            old(result).character_spacing_twips
        }),
        res is Ok ==> final(result).color_index == (if s.group == PropertyGroup::Character && (s.opcode == 0x2A42 || s.opcode == 0x4A60) {
            Some(op_byte(*s))
        } else {
            old(result).color_index
        }),
        res is Ok ==> final(result).color_ref == (if s.group == PropertyGroup::Character && (s.opcode == 0x6870) {
            Some(op_dword(*s))
        } else {
            old(result).color_ref
        }),
        res is Ok ==> final(result).underline_color_ref == (if s.group == PropertyGroup::Character && (s.opcode == 0x6877) {
            Some(op_dword(*s))
        } else {
            old(result).underline_color_ref
        }),
        res is Ok ==> final(result).highlight_index == (if s.group == PropertyGroup::Character && (s.opcode == 0x2A0C) {
            Some(op_byte(*s))
        } else {
            old(result).highlight_index
        }),
        res is Ok ==> final(result).font_size_half_points == (if s.group == PropertyGroup::Character && (s.opcode == 0x4A43 || s.opcode == 0x4A61) {
            Some(op_word(*s))
        } else {
            old(result).font_size_half_points
        }),
        res is Ok ==> final(result).baseline_offset_half_points == (if s.group == PropertyGroup::Character && (s.opcode == 0x4845) {
            Some(op_word(*s) as i16)
        } else {
            old(result).baseline_offset_half_points
        }),
        res is Ok ==> final(result).vertical_alignment == (if s.group == PropertyGroup::Character && (s.opcode == 0x2A48) {
            Some(valign_of(op_byte(*s)))
        } else {
            old(result).vertical_alignment
        }),
        res is Ok ==> final(result).font_ascii == (if s.group == PropertyGroup::Character && (s.opcode == 0x4A4F) {
            Some(op_word(*s))
        } else {
            old(result).font_ascii
        }),
        res is Ok ==> final(result).font_east_asian == (if s.group == PropertyGroup::Character && (s.opcode == 0x4A50) {
            Some(op_word(*s))
        } else {
            old(result).font_east_asian
        }),
        res is Ok ==> final(result).font_other == (if s.group == PropertyGroup::Character && (s.opcode == 0x4A51) {
            Some(op_word(*s))
        } else {
            old(result).font_other
        }),
        res is Ok ==> final(result).font_bidi == (if s.group == PropertyGroup::Character && (s.opcode == 0x4A5E) {
            Some(op_word(*s))
        } else {
            old(result).font_bidi
        }),
        res is Ok ==> final(result).language_ascii == (if s.group == PropertyGroup::Character && (s.opcode == 0x486D || s.opcode == 0x4873) {
            Some(op_word(*s))
        } else {
            old(result).language_ascii
        }),
        res is Ok ==> final(result).language_east_asian == (if s.group == PropertyGroup::Character && (s.opcode == 0x486E || s.opcode == 0x4874) {
            Some(op_word(*s))
        } else {
            old(result).language_east_asian
        }),
        res is Ok ==> final(result).language_bidi == (if s.group == PropertyGroup::Character && (s.opcode == 0x485F) {
            Some(op_word(*s))
        } else {
            old(result).language_bidi
        }),
        res is Ok ==> final(result).plain == old(result).plain,
        res is Ok ==> final(result).unsupported_opcodes@ == old(result).unsupported_opcodes@,
        res is Ok ==> final(result).other_group_opcodes@ == old(result).other_group_opcodes@,
{
    let sprm = s;
    match sprm.opcode {
        0x0806 => {
            result.binary_data = Some(bool8(sprm)?);
        },
        0x080A => {
            result.ole2 = Some(bool8(sprm)?);
        },
        0x0835 => {
            result.bold = Some(toggle(sprm)?);
        },
        0x0836 => {
            result.italic = Some(toggle(sprm)?);
        },
        0x0837 => {
            result.strike = Some(toggle(sprm)?);
        },
        0x2A53 => {
            result.double_strike = Some(toggle(sprm)?);
        },
        0x0838 => {
            result.outline = Some(toggle(sprm)?);
        },
        0x0839 => {
            result.shadow = Some(toggle(sprm)?);
        },
        0x083A => {
            result.small_caps = Some(toggle(sprm)?);
        },
        0x083B => {
            result.caps = Some(toggle(sprm)?);
        },
        0x083C => {
            result.hidden = Some(toggle(sprm)?);
        },
        0x0854 => {
            result.imprint = Some(toggle(sprm)?);
        },
        0x0858 => {
            result.emboss = Some(toggle(sprm)?);
        },
        0x0855 => {
            result.special = Some(toggle(sprm)?);
        },
        0x0856 => {
            result.object = Some(toggle(sprm)?);
        },
        0x085A => {
            result.bidi = Some(toggle(sprm)?);
        },
        0x085C => {
            result.bidi_bold = Some(toggle(sprm)?);
        },
        0x085D => {
            result.bidi_italic = Some(toggle(sprm)?);
        },
        0x0882 => {
            result.complex_scripts = Some(toggle(sprm)?);
        },
        _ => {},
    }
    Ok(())
}

/// Applies one character-family SPRM that does not set a flag.
#[verifier::spinoff_prover]
#[verifier::rlimit(100)]
fn apply_character_value(result: &mut CharacterPropertyDelta, s: &Sprm) -> (res: Result<()>)
    requires
        s.group == PropertyGroup::Character,
        !character_flag_opcode(s.opcode),
    ensures
        res is Ok <==> character_sprm_ok(*s),
        res is Err ==> res->Err_0.kind() == ErrorKind::InvalidFormatting,
        res is Ok ==> final(result).style_index == (if s.group == PropertyGroup::Character && (s.opcode == 0x4A30) {
            Some(op_word(*s))
        } else {
            old(result).style_index
        }),
        res is Ok ==> final(result).picture_location == (if s.group == PropertyGroup::Character && (s.opcode == 0x6A03) {
            Some(op_dword(*s))
        } else {
            old(result).picture_location
        }),
        res is Ok ==> final(result).binary_data == (if s.group == PropertyGroup::Character && (s.opcode == 0x0806) {
            Some(op_byte(*s) == 1)
        } else {
            old(result).binary_data
        }),
        res is Ok ==> final(result).ole2 == (if s.group == PropertyGroup::Character && (s.opcode == 0x080A) {
            Some(op_byte(*s) == 1)
        } else {
            old(result).ole2
        }),
        res is Ok ==> final(result).bold == (if s.group == PropertyGroup::Character && (s.opcode == 0x0835) {
            Some(toggle_of(op_byte(*s)))
        } else {
            old(result).bold
        }),
        res is Ok ==> final(result).italic == (if s.group == PropertyGroup::Character && (s.opcode == 0x0836) {
            Some(toggle_of(op_byte(*s)))
        } else {
            old(result).italic
        }),
        res is Ok ==> final(result).strike == (if s.group == PropertyGroup::Character && (s.opcode == 0x0837) {
            Some(toggle_of(op_byte(*s)))
        } else {
            old(result).strike
        }),
        res is Ok ==> final(result).double_strike == (if s.group == PropertyGroup::Character && (s.opcode == 0x2A53) {
            Some(toggle_of(op_byte(*s)))
        } else {
            old(result).double_strike
        }),
        res is Ok ==> final(result).outline == (if s.group == PropertyGroup::Character && (s.opcode == 0x0838) {
            Some(toggle_of(op_byte(*s)))
        } else {
            old(result).outline
        }),
        res is Ok ==> final(result).shadow == (if s.group == PropertyGroup::Character && (s.opcode == 0x0839) {
            Some(toggle_of(op_byte(*s)))
        } else {
            old(result).shadow
        }),
        res is Ok ==> final(result).small_caps == (if s.group == PropertyGroup::Character && (s.opcode == 0x083A) {
            Some(toggle_of(op_byte(*s)))
        } else {
            old(result).small_caps
        }),
        res is Ok ==> final(result).caps == (if s.group == PropertyGroup::Character && (s.opcode == 0x083B) {
            Some(toggle_of(op_byte(*s)))
        } else {
            old(result).caps
        }),
        res is Ok ==> final(result).hidden == (if s.group == PropertyGroup::Character && (s.opcode == 0x083C) {
            Some(toggle_of(op_byte(*s)))
        } else {
            old(result).hidden
        }),
        res is Ok ==> final(result).imprint == (if s.group == PropertyGroup::Character && (s.opcode == 0x0854) {
            Some(toggle_of(op_byte(*s)))
        } else {
            old(result).imprint
        }),
        res is Ok ==> final(result).emboss == (if s.group == PropertyGroup::Character && (s.opcode == 0x0858) {
            Some(toggle_of(op_byte(*s)))
        } else {
            old(result).emboss
        }),
        res is Ok ==> final(result).special == (if s.group == PropertyGroup::Character && (s.opcode == 0x0855) {
            Some(toggle_of(op_byte(*s)))
        } else {
            old(result).special
        }),
        res is Ok ==> final(result).object == (if s.group == PropertyGroup::Character && (s.opcode == 0x0856) {
            Some(toggle_of(op_byte(*s)))
        } else {
            old(result).object
        }),
        res is Ok ==> final(result).bidi == (if s.group == PropertyGroup::Character && (s.opcode == 0x085A) {
            Some(toggle_of(op_byte(*s)))
        } else {
            old(result).bidi
        }),
        res is Ok ==> final(result).bidi_bold == (if s.group == PropertyGroup::Character && (s.opcode == 0x085C) {
            Some(toggle_of(op_byte(*s)))
        } else {
            old(result).bidi_bold
        }),
        res is Ok ==> final(result).bidi_italic == (if s.group == PropertyGroup::Character && (s.opcode == 0x085D) {
            Some(toggle_of(op_byte(*s)))
        } else {
            old(result).bidi_italic
        }),
        res is Ok ==> final(result).complex_scripts == (if s.group == PropertyGroup::Character && (s.opcode == 0x0882) {
            Some(toggle_of(op_byte(*s)))
        } else {
            old(result).complex_scripts
        }),
        res is Ok ==> final(result).underline == (if s.group == PropertyGroup::Character && (s.opcode == 0x2A3E) {
            Some(op_byte(*s))
        } else {
            old(result).underline
        }),
        res is Ok ==> final(result).character_spacing_twips == (if s.group == PropertyGroup::Character && (s.opcode == 0x8840) {
            Some(op_word(*s) as i16)
        } else {
            old(result).character_spacing_twips
        }),
        res is Ok ==> final(result).color_index == (if s.group == PropertyGroup::Character && (s.opcode == 0x2A42 || s.opcode == 0x4A60) {
            Some(op_byte(*s))
        } else {
            old(result).color_index
        }),
        res is Ok ==> final(result).color_ref == (if s.group == PropertyGroup::Character && (s.opcode == 0x6870) {
            Some(op_dword(*s))
        } else {
            old(result).color_ref
        }),
        res is Ok ==> final(result).underline_color_ref == (if s.group == PropertyGroup::Character && (s.opcode == 0x6877) {
            Some(op_dword(*s))
        } else {
            old(result).underline_color_ref
        }),
        res is Ok ==> final(result).highlight_index == (if s.group == PropertyGroup::Character && (s.opcode == 0x2A0C) {
            Some(op_byte(*s))
        } else {
            old(result).highlight_index
        }),
        res is Ok ==> final(result).font_size_half_points == (if s.group == PropertyGroup::Character && (s.opcode == 0x4A43 || s.opcode == 0x4A61) {
            Some(op_word(*s))
        } else {
            old(result).font_size_half_points
        }),
        res is Ok ==> final(result).baseline_offset_half_points == (if s.group == PropertyGroup::Character && (s.opcode == 0x4845) {
            Some(op_word(*s) as i16)
        } else {
            old(result).baseline_offset_half_points
        }),
        res is Ok ==> final(result).vertical_alignment == (if s.group == PropertyGroup::Character && (s.opcode == 0x2A48) {
            Some(valign_of(op_byte(*s)))
        } else {
            old(result).vertical_alignment
        }),
        res is Ok ==> final(result).font_ascii == (if s.group == PropertyGroup::Character && (s.opcode == 0x4A4F) {
            Some(op_word(*s))
        } else {
            old(result).font_ascii
        }),
        res is Ok ==> final(result).font_east_asian == (if s.group == PropertyGroup::Character && (s.opcode == 0x4A50) {
            Some(op_word(*s))
        } else {
            old(result).font_east_asian
        }),
        res is Ok ==> final(result).font_other == (if s.group == PropertyGroup::Character && (s.opcode == 0x4A51) {
            Some(op_word(*s))
        } else {
            old(result).font_other
        }),
        res is Ok ==> final(result).font_bidi == (if s.group == PropertyGroup::Character && (s.opcode == 0x4A5E) {
            Some(op_word(*s))
        } else {
            old(result).font_bidi
        }),
        res is Ok ==> final(result).language_ascii == (if s.group == PropertyGroup::Character && (s.opcode == 0x486D || s.opcode == 0x4873) {
            Some(op_word(*s))
        } else {
            old(result).language_ascii
        }),
        res is Ok ==> final(result).language_east_asian == (if s.group == PropertyGroup::Character && (s.opcode == 0x486E || s.opcode == 0x4874) {
            Some(op_word(*s))
        } else {
            old(result).language_east_asian
        }),
        res is Ok ==> final(result).language_bidi == (if s.group == PropertyGroup::Character && (s.opcode == 0x485F) {
            Some(op_word(*s))
        } else {
            old(result).language_bidi
        }),
        res is Ok ==> final(result).plain == (old(result).plain || s.opcode == 0x2A33),
        res is Ok ==> final(result).unsupported_opcodes@ == (if !character_known(s.opcode) {
            old(result).unsupported_opcodes@.push(s.opcode)
        } else {
            old(result).unsupported_opcodes@
        }),
        res is Ok ==> final(result).other_group_opcodes@ == old(result).other_group_opcodes@,
{
    let sprm = s;
    match sprm.opcode {
        0x4A30 => {
            result.style_index = Some(word(sprm)?);
        },
        0x6A03 => {
            result.picture_location = Some(dword(sprm)?);
        },
        0x2A3E => {
            result.underline = Some(byte(sprm)?);
        },
        0x8840 => {
            result.character_spacing_twips = Some(signed_word(sprm)?);
        },
        0x2A42 | 0x4A60 => {
            result.color_index = Some(color_index(sprm)?);
        },
        0x6870 => {
            result.color_ref = Some(dword(sprm)?);
        },
        0x6877 => {
            result.underline_color_ref = Some(dword(sprm)?);
        },
        0x2A0C => {
            result.highlight_index = Some(color_index(sprm)?);
        },
        0x4A43 | 0x4A61 => {
            result.font_size_half_points = Some(font_size(sprm)?);
        },
        0x4845 => {
            result.baseline_offset_half_points = Some(baseline_offset(sprm)?);
        },
        0x2A48 => {
            result.vertical_alignment = Some(vertical_alignment(sprm)?);
        },
        0x4A4F => {
            result.font_ascii = Some(word(sprm)?);
        },
        0x4A50 => {
            result.font_east_asian = Some(word(sprm)?);
        },
        0x4A51 => {
            result.font_other = Some(word(sprm)?);
        },
        0x4A5E => {
            result.font_bidi = Some(word(sprm)?);
        },
        0x486D | 0x4873 => {
            result.language_ascii = Some(word(sprm)?);
        },
        0x486E | 0x4874 => {
            result.language_east_asian = Some(word(sprm)?);
        },
        0x485F => {
            result.language_bidi = Some(word(sprm)?);
        },
        0x2A33 => {
            result.plain = true;
        },
        _ => {
            result.unsupported_opcodes.push(sprm.opcode);
        },
    }
    Ok(())
}

/// Whether `opcode` sets a character toggle or `Bool8` property.
pub open spec fn character_flag_opcode(opcode: u16) -> bool {
    opcode == 0x0806
        || opcode == 0x080A
        || opcode == 0x0835
        || opcode == 0x0836
        || opcode == 0x0837
        || opcode == 0x2A53
        || opcode == 0x0838
        || opcode == 0x0839
        || opcode == 0x083A
        || opcode == 0x083B
        || opcode == 0x083C
        || opcode == 0x0854
        || opcode == 0x0858
        || opcode == 0x0855
        || opcode == 0x0856
        || opcode == 0x085A
        || opcode == 0x085C
        || opcode == 0x085D
        || opcode == 0x0882
}

/// Whether `opcode` sets a character toggle or `Bool8` property.
fn is_character_flag_opcode(opcode: u16) -> (res: bool)
    ensures
        res == character_flag_opcode(opcode),
{
    opcode == 0x0806
        || opcode == 0x080A
        || opcode == 0x0835
        || opcode == 0x0836
        || opcode == 0x0837
        || opcode == 0x2A53
        || opcode == 0x0838
        || opcode == 0x0839
        || opcode == 0x083A
        || opcode == 0x083B
        || opcode == 0x083C
        || opcode == 0x0854
        || opcode == 0x0858
        || opcode == 0x0855
        || opcode == 0x0856
        || opcode == 0x085A
        || opcode == 0x085C
        || opcode == 0x085D
        || opcode == 0x0882
}

/// Applies one SPRM to character properties.
fn apply_character_sprm(result: &mut CharacterPropertyDelta, s: &Sprm) -> (res: Result<()>)
    ensures
        res is Ok <==> character_sprm_ok(*s),
        res is Err ==> res->Err_0.kind() == ErrorKind::InvalidFormatting,
        res is Ok ==> final(result).style_index == (if s.group == PropertyGroup::Character && (s.opcode == 0x4A30) {
            Some(op_word(*s))
        } else {
            old(result).style_index
        }),
        res is Ok ==> final(result).picture_location == (if s.group == PropertyGroup::Character && (s.opcode == 0x6A03) {
            Some(op_dword(*s))
        } else {
            old(result).picture_location
        }),
        res is Ok ==> final(result).binary_data == (if s.group == PropertyGroup::Character && (s.opcode == 0x0806) {
            Some(op_byte(*s) == 1)
        } else {
            old(result).binary_data
        }),
        res is Ok ==> final(result).ole2 == (if s.group == PropertyGroup::Character && (s.opcode == 0x080A) {
            Some(op_byte(*s) == 1)
        } else {
            old(result).ole2
        }),
        res is Ok ==> final(result).bold == (if s.group == PropertyGroup::Character && (s.opcode == 0x0835) {
            Some(toggle_of(op_byte(*s)))
        } else {
            old(result).bold
        }),
        res is Ok ==> final(result).italic == (if s.group == PropertyGroup::Character && (s.opcode == 0x0836) {
            Some(toggle_of(op_byte(*s)))
        } else {
            old(result).italic
        }),
        res is Ok ==> final(result).strike == (if s.group == PropertyGroup::Character && (s.opcode == 0x0837) {
            Some(toggle_of(op_byte(*s)))
        } else {
            old(result).strike
        }),
        res is Ok ==> final(result).double_strike == (if s.group == PropertyGroup::Character && (s.opcode == 0x2A53) {
            Some(toggle_of(op_byte(*s)))
        } else {
            old(result).double_strike
        }),
        res is Ok ==> final(result).outline == (if s.group == PropertyGroup::Character && (s.opcode == 0x0838) {
            Some(toggle_of(op_byte(*s)))
        } else {
            old(result).outline
        }),
        res is Ok ==> final(result).shadow == (if s.group == PropertyGroup::Character && (s.opcode == 0x0839) {
            Some(toggle_of(op_byte(*s)))
        } else {
            old(result).shadow
        }),
        res is Ok ==> final(result).small_caps == (if s.group == PropertyGroup::Character && (s.opcode == 0x083A) {
            Some(toggle_of(op_byte(*s)))
        } else {
            old(result).small_caps
        }),
        res is Ok ==> final(result).caps == (if s.group == PropertyGroup::Character && (s.opcode == 0x083B) {
            Some(toggle_of(op_byte(*s)))
        } else {
            old(result).caps
        }),
        res is Ok ==> final(result).hidden == (if s.group == PropertyGroup::Character && (s.opcode == 0x083C) {
            Some(toggle_of(op_byte(*s)))
        } else {
            old(result).hidden
        }),
        res is Ok ==> final(result).imprint == (if s.group == PropertyGroup::Character && (s.opcode == 0x0854) {
            Some(toggle_of(op_byte(*s)))
        } else {
            old(result).imprint
        }),
        res is Ok ==> final(result).emboss == (if s.group == PropertyGroup::Character && (s.opcode == 0x0858) {
            Some(toggle_of(op_byte(*s)))
        } else {
            old(result).emboss
        }),
        res is Ok ==> final(result).special == (if s.group == PropertyGroup::Character && (s.opcode == 0x0855) {
            Some(toggle_of(op_byte(*s)))
        } else {
            old(result).special
        }),
        res is Ok ==> final(result).object == (if s.group == PropertyGroup::Character && (s.opcode == 0x0856) {
            Some(toggle_of(op_byte(*s)))
        } else {
            old(result).object
        }),
        res is Ok ==> final(result).bidi == (if s.group == PropertyGroup::Character && (s.opcode == 0x085A) {
            Some(toggle_of(op_byte(*s)))
        } else {
            old(result).bidi
        }),
        res is Ok ==> final(result).bidi_bold == (if s.group == PropertyGroup::Character && (s.opcode == 0x085C) {
            Some(toggle_of(op_byte(*s)))
        } else {
            old(result).bidi_bold
        }),
        res is Ok ==> final(result).bidi_italic == (if s.group == PropertyGroup::Character && (s.opcode == 0x085D) {
            Some(toggle_of(op_byte(*s)))
        } else {
            old(result).bidi_italic
        }),
        res is Ok ==> final(result).complex_scripts == (if s.group == PropertyGroup::Character && (s.opcode == 0x0882) {
            Some(toggle_of(op_byte(*s)))
        } else {
            old(result).complex_scripts
        }),
        res is Ok ==> final(result).underline == (if s.group == PropertyGroup::Character && (s.opcode == 0x2A3E) {
            Some(op_byte(*s))
        } else {
            old(result).underline
        }),
        res is Ok ==> final(result).character_spacing_twips == (if s.group == PropertyGroup::Character && (s.opcode == 0x8840) {
            Some(op_word(*s) as i16)
        } else {
            old(result).character_spacing_twips
        }),
        res is Ok ==> final(result).color_index == (if s.group == PropertyGroup::Character && (s.opcode == 0x2A42 || s.opcode == 0x4A60) {
            Some(op_byte(*s))
        } else {
            old(result).color_index
        }),
        res is Ok ==> final(result).color_ref == (if s.group == PropertyGroup::Character && (s.opcode == 0x6870) {
            Some(op_dword(*s))
        } else {
            old(result).color_ref
        }),
        res is Ok ==> final(result).underline_color_ref == (if s.group == PropertyGroup::Character && (s.opcode == 0x6877) {
            Some(op_dword(*s))
        } else {
            old(result).underline_color_ref
        }),
        res is Ok ==> final(result).highlight_index == (if s.group == PropertyGroup::Character && (s.opcode == 0x2A0C) {
            Some(op_byte(*s))
        } else {
            old(result).highlight_index
        }),
        res is Ok ==> final(result).font_size_half_points == (if s.group == PropertyGroup::Character && (s.opcode == 0x4A43 || s.opcode == 0x4A61) {
            Some(op_word(*s))
        } else {
            old(result).font_size_half_points
        }),
        res is Ok ==> final(result).baseline_offset_half_points == (if s.group == PropertyGroup::Character && (s.opcode == 0x4845) {
            Some(op_word(*s) as i16)
        } else {
            old(result).baseline_offset_half_points
        }),
        res is Ok ==> final(result).vertical_alignment == (if s.group == PropertyGroup::Character && (s.opcode == 0x2A48) {
            Some(valign_of(op_byte(*s)))
        } else {
            old(result).vertical_alignment
        }),
        res is Ok ==> final(result).font_ascii == (if s.group == PropertyGroup::Character && (s.opcode == 0x4A4F) {
            Some(op_word(*s))
        } else {
            old(result).font_ascii
        }),
        res is Ok ==> final(result).font_east_asian == (if s.group == PropertyGroup::Character && (s.opcode == 0x4A50) {
            Some(op_word(*s))
        } else {
            old(result).font_east_asian
        }),
        res is Ok ==> final(result).font_other == (if s.group == PropertyGroup::Character && (s.opcode == 0x4A51) {
            Some(op_word(*s))
        } else {
            old(result).font_other
        }),
        res is Ok ==> final(result).font_bidi == (if s.group == PropertyGroup::Character && (s.opcode == 0x4A5E) {
            Some(op_word(*s))
        } else {
            old(result).font_bidi
        }),
        res is Ok ==> final(result).language_ascii == (if s.group == PropertyGroup::Character && (s.opcode == 0x486D || s.opcode == 0x4873) {
            Some(op_word(*s))
        } else {
            old(result).language_ascii
        }),
        res is Ok ==> final(result).language_east_asian == (if s.group == PropertyGroup::Character && (s.opcode == 0x486E || s.opcode == 0x4874) {
            Some(op_word(*s))
        } else {
            old(result).language_east_asian
        }),
        res is Ok ==> final(result).language_bidi == (if s.group == PropertyGroup::Character && (s.opcode == 0x485F) {
            Some(op_word(*s))
        } else {
            old(result).language_bidi
        }),
        res is Ok ==> final(result).plain == (old(result).plain || (s.group == PropertyGroup::Character && s.opcode
            == 0x2A33)),
        res is Ok ==> final(result).unsupported_opcodes@ == (if s.group == PropertyGroup::Character
            && !character_known(s.opcode) {
            old(result).unsupported_opcodes@.push(s.opcode)
        } else {
            old(result).unsupported_opcodes@
        }),
        res is Ok ==> final(result).other_group_opcodes@ == (if s.group != PropertyGroup::Character {
            old(result).other_group_opcodes@.push(s.opcode)
        } else {
            old(result).other_group_opcodes@
        }),
{
    if s.group != PropertyGroup::Character {
        result.other_group_opcodes.push(s.opcode);
        return Ok(());
    }
    if is_character_flag_opcode(s.opcode) {
        apply_character_flag(result, s)
    } else {
        apply_character_value(result, s)
    }
}

/// Applies character SPRMs in source order. Later modifiers win.
#[verifier::rlimit(100)]
pub fn apply_character_sprms(sprms: &[Sprm]) -> (res: Result<CharacterPropertyDelta>)
    ensures
        res is Ok <==> forall|i: int| 0 <= i < sprms@.len() ==> #[trigger] character_sprm_ok(sprms@[i]),
        res is Err ==> res->Err_0.kind() == ErrorKind::InvalidFormatting,
        res matches Ok(d) ==> character_fields_match(d, sprms@, sprms@.len() as int),
{
    let mut result = CharacterPropertyDelta::default();
    assert(result.unsupported_opcodes@ =~= character_unknown_opcodes(sprms@, 0));
    assert(result.other_group_opcodes@ =~= foreign_opcodes(sprms@, 0, PropertyGroup::Character));
    let mut i: usize = 0;
    while i < sprms.len()
        invariant
            i <= sprms@.len(),
            forall|j: int| 0 <= j < i ==> #[trigger] character_sprm_ok(sprms@[j]),
            character_fields_match(result, sprms@, i as int),
        decreases sprms@.len() - i,
    {
        let ghost before = result;
        match apply_character_sprm(&mut result, &sprms[i]) {
            Ok(()) => {
                proof {
                    assert(character_step(before, result, sprms@[i as int]));
                    lemma_character_step(before, result, sprms@, i as int);
                }
            },
            Err(e) => {
                assert(!character_sprm_ok(sprms@[i as int]));
                return Err(e);
            },
        }
        i = i + 1;
    }
    Ok(result)
}

/// Applies one SPRM to paragraph properties.
#[verifier::spinoff_prover]
#[verifier::rlimit(100)]
fn apply_paragraph_sprm(result: &mut ParagraphPropertyDelta, s: &Sprm) -> (res: Result<()>)
    ensures
        res is Ok <==> paragraph_sprm_ok(*s),
        res is Err ==> res->Err_0.kind() == ErrorKind::InvalidFormatting,
        res is Ok ==> final(result).style_index == (if s.group == PropertyGroup::Paragraph && (s.opcode == 0x4600) {
            Some(op_word(*s))
        } else {
            old(result).style_index
        }),
        res is Ok ==> final(result).justification == (if s.group == PropertyGroup::Paragraph && (s.opcode == 0x2403 || s.opcode == 0x2461) {
            Some(op_byte(*s))
        } else {
            old(result).justification
        }),
        res is Ok ==> final(result).keep_together == (if s.group == PropertyGroup::Paragraph && (s.opcode == 0x2405) {
            Some(op_byte(*s) == 1)
        } else {
            old(result).keep_together
        }),
        res is Ok ==> final(result).keep_with_next == (if s.group == PropertyGroup::Paragraph && (s.opcode == 0x2406) {
            Some(op_byte(*s) == 1)
        } else {
            old(result).keep_with_next
        }),
        res is Ok ==> final(result).page_break_before == (if s.group == PropertyGroup::Paragraph && (s.opcode == 0x2407) {
            Some(op_byte(*s) == 1)
        } else {
            old(result).page_break_before
        }),
        res is Ok ==> final(result).list_level == (if s.group == PropertyGroup::Paragraph && (s.opcode == 0x260A) {
            Some(op_byte(*s))
        } else {
            old(result).list_level
        }),
        res is Ok ==> final(result).list_id == (if s.group == PropertyGroup::Paragraph && (s.opcode == 0x460B) {
            Some(op_word(*s) as i16)
        } else {
            old(result).list_id
        }),
        res is Ok ==> final(result).indent_right_twips == (if s.group == PropertyGroup::Paragraph && (s.opcode == 0x840E || s.opcode == 0x845D) {
            Some(op_word(*s) as i16)
        } else {
            old(result).indent_right_twips
        }),
        res is Ok ==> final(result).indent_left_twips == (if s.group == PropertyGroup::Paragraph && (s.opcode == 0x840F || s.opcode == 0x845E || s.opcode == 0x4610 || s.opcode == 0x465F) {
            Some(op_word(*s) as i16)
        } else {
            old(result).indent_left_twips
        }),
        res is Ok ==> final(result).first_line_indent_twips == (if s.group == PropertyGroup::Paragraph && (s.opcode == 0x8411 || s.opcode == 0x8460) {
            Some(op_word(*s) as i16)
        } else {
            old(result).first_line_indent_twips
        }),
        res is Ok ==> final(result).line_spacing == (if s.group == PropertyGroup::Paragraph && (s.opcode == 0x6412) {
            Some(LineSpacing { value: op_word(*s) as i16, multiple: le_u16(op(*s), 2) == 1 })
        } else {
            old(result).line_spacing
        }),
        res is Ok ==> final(result).space_before_twips == (if s.group == PropertyGroup::Paragraph && (s.opcode == 0xA413) {
            Some(op_word(*s))
        } else {
            old(result).space_before_twips
        }),
        res is Ok ==> final(result).space_after_twips == (if s.group == PropertyGroup::Paragraph && (s.opcode == 0xA414) {
            Some(op_word(*s))
        } else {
            old(result).space_after_twips
        }),
        res is Ok ==> final(result).in_table == (if s.group == PropertyGroup::Paragraph && (s.opcode == 0x2416) {
            Some(op_byte(*s) == 1)
        } else {
            old(result).in_table
        }),
        res is Ok ==> final(result).table_terminating_paragraph == (if s.group == PropertyGroup::Paragraph && (s.opcode == 0x2417) {
            Some(op_byte(*s) == 1)
        } else {
            old(result).table_terminating_paragraph
        }),
        res is Ok ==> final(result).outline_level == (if s.group == PropertyGroup::Paragraph && (s.opcode == 0x2640) {
            Some(op_byte(*s))
        } else {
            old(result).outline_level
        }),
        res is Ok ==> final(result).bidi == (if s.group == PropertyGroup::Paragraph && (s.opcode == 0x2441) {
            Some(op_byte(*s) == 1)
        } else {
            old(result).bidi
        }),
        res is Ok ==> final(result).table_depth == (if s.group == PropertyGroup::Paragraph && (s.opcode == 0x6649) {
            Some(op_sdword(*s))
        } else {
            old(result).table_depth
        }),
        res is Ok ==> final(result).table_depth_delta == (if s.group == PropertyGroup::Paragraph && (s.opcode == 0x664A) {
            Some(op_sdword(*s))
        } else {
            old(result).table_depth_delta
        }),
        res is Ok ==> final(result).inner_table_cell == (if s.group == PropertyGroup::Paragraph && (s.opcode == 0x244B) {
            Some(op_byte(*s) == 1)
        } else {
            old(result).inner_table_cell
        }),
        res is Ok ==> final(result).inner_table_terminating_paragraph == (if s.group == PropertyGroup::Paragraph && (s.opcode == 0x244C) {
            Some(op_byte(*s) == 1)
        } else {
            old(result).inner_table_terminating_paragraph
        }),
        res is Ok ==> final(result).automatic_space_before == (if s.group == PropertyGroup::Paragraph && (s.opcode == 0x245B) {
            Some(op_byte(*s) == 1)
        } else {
            old(result).automatic_space_before
        }),
        res is Ok ==> final(result).automatic_space_after == (if s.group == PropertyGroup::Paragraph && (s.opcode == 0x245C) {
            Some(op_byte(*s) == 1)
        } else {
            old(result).automatic_space_after
        }),
        res is Ok ==> final(result).contextual_spacing == (if s.group == PropertyGroup::Paragraph && (s.opcode == 0x246D) {
            Some(op_byte(*s) == 1)
        } else {
            old(result).contextual_spacing
        }),
        res is Ok ==> final(result).mirror_indents == (if s.group == PropertyGroup::Paragraph && (s.opcode == 0x2470) {
            Some(op_byte(*s) == 1)
        } else {
            old(result).mirror_indents
        }),
        res is Ok ==> (if s.group == PropertyGroup::Paragraph && (s.opcode == 0xC60D || s.opcode == 0xC615) {
            final(result).tab_changes@.len() == old(result).tab_changes@.len() + 1
                && final(result).tab_changes@.drop_last() == old(result).tab_changes@ && tab_change_matches(
                final(result).tab_changes@.last(),
                *s,
            )
        } else {
            final(result).tab_changes@ == old(result).tab_changes@
        }),
        res is Ok ==> final(result).unsupported_opcodes@ == (if s.group == PropertyGroup::Paragraph
            && !paragraph_known(s.opcode) {
            old(result).unsupported_opcodes@.push(s.opcode)
        } else {
            old(result).unsupported_opcodes@
        }),
        res is Ok ==> final(result).other_group_opcodes@ == (if s.group != PropertyGroup::Paragraph {
            old(result).other_group_opcodes@.push(s.opcode)
        } else {
            old(result).other_group_opcodes@
        }),
{
    let sprm = s;
    if sprm.group != PropertyGroup::Paragraph {
        result.other_group_opcodes.push(sprm.opcode);
        return Ok(());
    }
    match sprm.opcode {
        0x4600 => {
            result.style_index = Some(word(sprm)?);
        },
        0x2403 | 0x2461 => {
            result.justification = Some(byte_at_most_nine(sprm)?);
        },
        0x2405 => {
            result.keep_together = Some(bool8(sprm)?);
        },
        0x2406 => {
            result.keep_with_next = Some(bool8(sprm)?);
        },
        0x2407 => {
            result.page_break_before = Some(bool8(sprm)?);
        },
        0x260A => {
            result.list_level = Some(byte(sprm)?);
        },
        0x460B => {
            result.list_id = Some(signed_word(sprm)?);
        },
        0x840E | 0x845D => {
            result.indent_right_twips = Some(signed_word(sprm)?);
        },
        0x840F | 0x845E | 0x4610 | 0x465F => {
            result.indent_left_twips = Some(signed_word(sprm)?);
        },
        0x8411 | 0x8460 => {
            result.first_line_indent_twips = Some(signed_word(sprm)?);
        },
        0x6412 => {
            result.line_spacing = Some(line_spacing(sprm)?);
        },
        0xA413 => {
            result.space_before_twips = Some(paragraph_spacing(sprm)?);
        },
        0xA414 => {
            result.space_after_twips = Some(paragraph_spacing(sprm)?);
        },
        0x2416 => {
            result.in_table = Some(bool8(sprm)?);
        },
        0x2417 => {
            result.table_terminating_paragraph = Some(bool8(sprm)?);
        },
        0x2640 => {
            result.outline_level = Some(byte_at_most_nine(sprm)?);
        },
        0x2441 => {
            result.bidi = Some(bool8(sprm)?);
        },
        0x6649 => {
            result.table_depth = Some(table_depth(sprm)?);
        },
        0x664A => {
            result.table_depth_delta = Some(signed_dword(sprm)?);
        },
        0x244B => {
            result.inner_table_cell = Some(bool8(sprm)?);
        },
        0x244C => {
            result.inner_table_terminating_paragraph = Some(bool8(sprm)?);
        },
        0x245B => {
            result.automatic_space_before = Some(bool8(sprm)?);
        },
        0x245C => {
            result.automatic_space_after = Some(bool8(sprm)?);
        },
        0x246D => {
            result.contextual_spacing = Some(bool8(sprm)?);
        },
        0x2470 => {
            result.mirror_indents = Some(bool8(sprm)?);
        },
        0xC60D => {
            let change = tab_change(sprm, false)?;
            result.tab_changes.push(change);
        },
        0xC615 => {
            let change = tab_change(sprm, true)?;
            result.tab_changes.push(change);
        },
        _ => {
            result.unsupported_opcodes.push(sprm.opcode);
        },
    }
    Ok(())
}

/// Applies paragraph SPRMs in source order. Later modifiers win; tab changes accumulate.
#[verifier::rlimit(100)]
pub fn apply_paragraph_sprms(sprms: &[Sprm]) -> (res: Result<ParagraphPropertyDelta>)
    ensures
        res is Ok <==> forall|i: int| 0 <= i < sprms@.len() ==> #[trigger] paragraph_sprm_ok(sprms@[i]),
        res is Err ==> res->Err_0.kind() == ErrorKind::InvalidFormatting,
        res matches Ok(d) ==> paragraph_fields_match(d, sprms@, sprms@.len() as int),
{
    let mut result = ParagraphPropertyDelta::default();
    assert(result.unsupported_opcodes@ =~= paragraph_unknown_opcodes(sprms@, 0));
    assert(result.other_group_opcodes@ =~= foreign_opcodes(sprms@, 0, PropertyGroup::Paragraph));
    let mut i: usize = 0;
    while i < sprms.len()
        invariant
            i <= sprms@.len(),
            forall|j: int| 0 <= j < i ==> #[trigger] paragraph_sprm_ok(sprms@[j]),
            paragraph_fields_match(result, sprms@, i as int),
        decreases sprms@.len() - i,
    {
        let ghost before = result;
        match apply_paragraph_sprm(&mut result, &sprms[i]) {
            Ok(()) => {
                proof {
                    assert(paragraph_step(before, result, sprms@[i as int]));
                    lemma_paragraph_step(before, result, sprms@, i as int);
                }
            },
            Err(e) => {
                assert(!paragraph_sprm_ok(sprms@[i as int]));
                return Err(e);
            },
        }
        i = i + 1;
    }
    Ok(result)
}

} // verus!

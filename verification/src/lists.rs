//! Source-backed Word list definitions and format overrides.

use vstd::prelude::*;

use crate::binary::{ByteCursor, checked_slice, le_i32, le_u16, le_u32, read_i32_le, read_u16_le, read_u32_le};
use crate::comments::{append_hex, hex_digits};
use crate::document::WordBinaryDocument;
use crate::error::{DocError, ErrorKind, Outcome, Result, message};
use crate::fib::{INDEX_PLF_LFO, INDEX_PLF_LST};
use crate::limits::DocLimits;
use crate::sprm::{PropertyGroup, Sprm, decode_grpprl, grpprl_frames, sprm_group, sprms_are_frames};
use crate::text::{char_from_u32, push_char, scalar_char};

verus! {

/// Size of one `LSTF`.
pub const LSTF_SIZE: usize = 28;

/// Size of the fixed `LVLF` part of an `LVL`.
pub const LVLF_SIZE: usize = 28;

/// Size of one `LFO`.
pub const LFO_SIZE: usize = 16;

/// Size of the fixed part of an `LFOLVL`.
pub const LFOLVL_BASE_SIZE: usize = 8;

/// Number of levels of a multilevel list.
pub const MAX_LEVELS: usize = 9;

/// Character emitted after a rendered list marker.
#[derive(Debug, Clone, Copy, PartialEq, Eq, Structural)]
pub enum ListFollow {
    /// A tab follows the marker.
    Tab,
    /// A space follows the marker.
    Space,
    /// Nothing follows the marker.
    Nothing,
}

/// Formatting for one level of a Word list definition.
#[derive(Debug, Clone, PartialEq, Eq)]
pub struct ListLevel {
    /// Initial sequence value.
    pub start_at: u32,
    /// Source `MSONFC` numbering-format code.
    pub number_format: u8,
    /// Marker justification: 0 left, 1 center, 2 right.
    pub justification: u8,
    /// Force inherited placeholders to Arabic numbering.
    pub legal_numbering: bool,
    /// Do not restart at every more-significant level.
    pub no_restart: bool,
    /// First significant level after which this level does not restart.
    pub restart_limit: u8,
    /// Character following the list marker.
    pub follow: ListFollow,
    /// Raw placeholder positions retained from `LVLF.rgbxchNums`.
    pub placeholder_offsets: [u8; 9],
    /// Marker template as UTF-16; placeholder units are level indexes.
    pub level_text: Vec<u16>,
    /// Paragraph properties applied by this list level.
    pub paragraph_sprms: Vec<Sprm>,
    /// Character properties applied to the marker.
    pub character_sprms: Vec<Sprm>,
}

/// The content of a list level.
pub struct LevelSpec {
    pub start_at: u32,
    pub number_format: u8,
    pub justification: u8,
    pub legal_numbering: bool,
    pub no_restart: bool,
    pub restart_limit: u8,
    pub follow: ListFollow,
    pub placeholder_offsets: Seq<u8>,
    pub level_text: Seq<u16>,
    pub paragraph_frames: Seq<(u16, Seq<u8>)>,
    pub character_frames: Seq<(u16, Seq<u8>)>,
}

impl ListLevel {
    /// Whether this level holds `s`.
    pub open spec fn matches(self, s: LevelSpec) -> bool {
        &&& self.start_at == s.start_at
        &&& self.number_format == s.number_format
        &&& self.justification == s.justification
        &&& self.legal_numbering == s.legal_numbering
        &&& self.no_restart == s.no_restart
        &&& self.restart_limit == s.restart_limit
        &&& self.follow == s.follow
        &&& self.placeholder_offsets@ == s.placeholder_offsets
        &&& self.level_text@ == s.level_text
        &&& sprms_are_frames(self.paragraph_sprms@, s.paragraph_frames)
        &&& sprms_are_frames(self.character_sprms@, s.character_frames)
    }
}

/// Index of the first zero of `o` from `i`, or `o.len()`.
pub open spec fn first_zero(o: Seq<u8>, i: int) -> int
    decreases o.len() - i,
{
    if i < 0 || i >= o.len() {
        o.len() as int
    } else if o[i] == 0 {
        i
    } else {
        first_zero(o, i + 1)
    }
}

/// The placeholder positions in use: the prefix of `o` before its first zero.
pub open spec fn used_placeholders(o: Seq<u8>) -> Seq<u8> {
    o.take(first_zero(o, 0))
}

/// Whether placeholder offsets `o` are a strictly ascending zero-terminated
/// prefix with at most one placeholder per level up to `level`.
pub open spec fn placeholder_shape_ok(o: Seq<u8>, level: int) -> bool {
    let n = first_zero(o, 0);
    &&& forall|i: int| n <= i < o.len() ==> o[i] == 0
    &&& forall|i: int, j: int| 0 <= i < j < n ==> o[i] < o[j]
    &&& n <= level + 1
}

/// Whether the placeholders `o` fit marker text `text` of a level: a bullet
/// has one character and no placeholder; otherwise every placeholder names a
/// unit of the text that refers to this or a shallower level.
pub open spec fn placeholders_ok(o: Seq<u8>, text: Seq<u16>, level: int, number_format: u8) -> bool {
    let used = used_placeholders(o);
    if number_format == 0x17 {
        text.len() == 1 && used.len() == 0
    } else {
        forall|i: int|
            0 <= i < used.len() ==> #[trigger] used[i] - 1 < text.len() && text[used[i] - 1] <= level
    }
}

/// The frames of a list-level `grpprl` whose properties must all belong to `group`.
pub open spec fn list_frames(g: Seq<u8>, group: PropertyGroup) -> Option<Seq<(u16, Seq<u8>)>> {
    match grpprl_frames(g, 0) {
        None => None,
        Some(f) => if forall|i: int| 0 <= i < f.len() ==> sprm_group(#[trigger] f[i].0) == Some(group) {
            Some(f)
        } else {
            None
        },
    }
}

/// The marker text units of a level: `count` little-endian units from `pos`.
pub open spec fn units_at(b: Seq<u8>, pos: int, count: int) -> Seq<u16> {
    Seq::new(count as nat, |k: int| le_u16(b, pos + 2 * k))
}

/// The level `level` read from byte `pos` of `b`, with the position after
/// it, or the failure kind.
pub open spec fn level_outcome(b: Seq<u8>, pos: int, level: int) -> Outcome<(LevelSpec, int)> {
    if pos < 0 || pos + 28 > b.len() {
        Err(ErrorKind::OutOfBounds)
    } else {
        let raw = b.subrange(pos, pos + 28);
        let nf = raw[4];
        let info = raw[5];
        let start_at: int = if nf == 0x17 || nf == 0xFF {
            0
        } else {
            le_i32(raw, 0) as int
        };
        let offsets = raw.subrange(6, 15);
        let restart = raw[26];
        let p1 = pos + 28;
        let p2 = p1 + raw[25];
        let p3 = p2 + raw[24];
        if nf == 0x08 || nf == 0x09 || nf == 0x0F || nf == 0x13 || start_at < 0 || start_at > 0x7FFF || info % 4
            == 3 || !placeholder_shape_ok(offsets, level) || raw[15] > 2 || ((info / 8) % 2 == 1 && restart
            > level) {
            Err(ErrorKind::InvalidList)
        } else if p3 > b.len() {
            Err(ErrorKind::OutOfBounds)
        } else {
            let pf = list_frames(b.subrange(p1, p2), PropertyGroup::Paragraph);
            let cf = list_frames(b.subrange(p2, p3), PropertyGroup::Character);
            if pf is None || cf is None {
                Err(ErrorKind::InvalidList)
            } else if p3 + 2 > b.len() || p3 + 2 + 2 * le_u16(b, p3) > b.len() {
                Err(ErrorKind::OutOfBounds)
            } else {
                let text = units_at(b, p3 + 2, le_u16(b, p3) as int);
                if !placeholders_ok(offsets, text, level, nf) {
                    Err(ErrorKind::InvalidList)
                } else {
                    Ok(
                        (
                            LevelSpec {
                                start_at: start_at as u32,
                                number_format: nf,
                                justification: info % 4,
                                legal_numbering: (info / 4) % 2 == 1,
                                no_restart: (info / 8) % 2 == 1,
                                restart_limit: restart,
                                follow: if raw[15] == 0 {
                                    ListFollow::Tab
                                } else if raw[15] == 1 {
                                    ListFollow::Space
                                } else {
                                    ListFollow::Nothing
                                },
                                placeholder_offsets: offsets,
                                level_text: text,
                                paragraph_frames: pf.unwrap(),
                                character_frames: cf.unwrap(),
                            },
                            p3 + 2 + 2 * le_u16(b, p3),
                        ),
                    )
                }
            }
        }
    }
}

/// The entries before the first zero are nonzero.
proof fn lemma_before_first_zero(o: Seq<u8>, i: int, k: int)
    requires
        0 <= i <= k < first_zero(o, i),
    ensures
        o[k] != 0,
    decreases k - i,
{
    if i < k {
        lemma_before_first_zero(o, i + 1, k);
    }
}

/// A list error with a fixed message.
fn invalid_list(text: &str) -> (res: DocError)
    ensures
        res.kind() == ErrorKind::InvalidList,
{
    DocError::InvalidList(message(text))
}

/// Frames a list-level `grpprl`, all of whose properties must belong to `expected`.
fn decode_list_grpprl(bytes: &[u8], expected: PropertyGroup, level: u8) -> (res: Result<Vec<Sprm>>)
    ensures
        match list_frames(bytes@, expected) {
            Some(f) => res matches Ok(v) && sprms_are_frames(v@, f),
            None => res is Err && res->Err_0.kind() == ErrorKind::InvalidList,
        },
{
    let sprms = match decode_grpprl(bytes) {
        Ok(v) => v,
        Err(_) => {
            return Err(invalid_list("list level grpprl cannot be framed"));
        },
    };
    let ghost f = grpprl_frames(bytes@, 0).unwrap();
    let mut k: usize = 0;
    while k < sprms.len()
        invariant
            grpprl_frames(bytes@, 0) == Some(f),
            sprms_are_frames(sprms@, f),
            k <= sprms@.len(),
            forall|i: int| 0 <= i < k ==> sprm_group(#[trigger] f[i].0) == Some(expected),
        decreases sprms@.len() - k,
    {
        assert(sprms@[k as int].is_frame(f[k as int]));
        if sprms[k].group != expected {
            assert(!(sprm_group(f[k as int].0) == Some(expected)));
            return Err(invalid_list("list level grpprl contains a property of another group"));
        }
        k = k + 1;
    }
    Ok(sprms)
}

/// Checks that placeholder offsets are a strictly ascending zero-terminated
/// prefix with at most `level + 1` entries.
fn validate_placeholder_shape(offsets: &[u8; 9], level: u8) -> (res: Result<()>)
    ensures
        placeholder_shape_ok(offsets@, level as int) ==> res is Ok,
        !placeholder_shape_ok(offsets@, level as int) ==> res is Err && res->Err_0.kind() == ErrorKind::InvalidList,
{
    let ghost o = offsets@;
    let mut previous: u8 = 0;
    let mut terminated = false;
    let mut count: usize = 0;
    let mut k: usize = 0;
    while k < 9
        invariant
            o == offsets@,
            o.len() == 9,
            k <= 9,
            !terminated ==> count == k && first_zero(o, 0) == first_zero(o, k as int),
            !terminated ==> forall|i: int, j: int| 0 <= i < j < k ==> o[i] < o[j],
            !terminated && k > 0 ==> previous == o[k - 1],
            !terminated && k == 0 ==> previous == 0,
            terminated ==> first_zero(o, 0) == count && count < k,
            terminated ==> forall|i: int| count <= i < k ==> o[i] == 0,
            terminated ==> forall|i: int, j: int| 0 <= i < j < count ==> o[i] < o[j],
        decreases 9 - k,
    {
        let offset = offsets[k];
        if offset == 0 {
            if !terminated {
                assert(first_zero(o, k as int) == k);
            }
            terminated = true;
        } else {
            if terminated || offset <= previous {
                proof {
                    if terminated {
                        assert(o[k as int] != 0);
                    } else {
                        assert(first_zero(o, k as int) == first_zero(o, k as int + 1));
                        assert(o[k as int - 1] >= o[k as int]);
                    }
                }
                return Err(invalid_list("list level placeholder offsets are not a unique ascending zero-terminated prefix"));
            }
            if !terminated {
                assert(first_zero(o, k as int) == first_zero(o, k as int + 1));
            }
            previous = offset;
            count = count + 1;
        }
        k = k + 1;
    }
    if !terminated {
        assert(first_zero(o, 9) == 9);
    }
    if count > level as usize + 1 {
        return Err(invalid_list("list level has more placeholders than levels"));
    }
    Ok(())
}

/// The number of placeholders in use.
fn used_count(offsets: &[u8; 9]) -> (res: usize)
    ensures
        res == first_zero(offsets@, 0),
        res <= 9,
{
    let ghost o = offsets@;
    let mut k: usize = 0;
    while k < 9 && offsets[k] != 0
        invariant
            o == offsets@,
            o.len() == 9,
            k <= 9,
            first_zero(o, 0) == first_zero(o, k as int),
        decreases 9 - k,
    {
        k = k + 1;
    }
    k
}

/// Checks the placeholders in use against the marker text of a level.
fn validate_placeholders(offsets: &[u8; 9], text: &[u16], level: u8, number_format: u8) -> (res: Result<()>)
    ensures
        placeholders_ok(offsets@, text@, level as int, number_format) ==> res is Ok,
        !placeholders_ok(offsets@, text@, level as int, number_format) ==> res is Err && res->Err_0.kind()
            == ErrorKind::InvalidList,
{
    let n = used_count(offsets);
    let ghost used = used_placeholders(offsets@);
    if number_format == 0x17 {
        if text.len() != 1 || n != 0 {
            return Err(invalid_list("bullet level must contain exactly one non-placeholder character"));
        }
        return Ok(());
    }
    let mut k: usize = 0;
    while k < n
        invariant
            number_format != 0x17,
            n == first_zero(offsets@, 0),
            n <= 9,
            used == offsets@.take(n as int),
            used == used_placeholders(offsets@),
            k <= n,
            forall|i: int| 0 <= i < k ==> #[trigger] used[i] - 1 < text@.len() && text@[used[i] - 1] <= level,
        decreases n - k,
    {
        let offset = offsets[k];
        assert(used[k as int] == offset);
        proof {
            lemma_before_first_zero(offsets@, 0, k as int);
        }
        if offset as usize - 1 >= text.len() || text[offset as usize - 1] > level as u16 {
            assert(!(used[k as int] - 1 < text@.len() && text@[used[k as int] - 1] <= level));
            return Err(invalid_list("list level placeholder does not name a shallower level unit"));
        }
        k = k + 1;
    }
    Ok(())
}

/// Parses one `LVL` at the cursor position for level `level_index`.
#[verifier::rlimit(60)]
pub fn parse_level(cursor: &mut ByteCursor, level_index: u8) -> (res: Result<ListLevel>)
    requires
        old(cursor).wf(),
    ensures
        final(cursor).wf(),
        final(cursor).bytes() == old(cursor).bytes(),
        final(cursor).label() == old(cursor).label(),
        match level_outcome(old(cursor).bytes(), old(cursor).pos(), level_index as int) {
            Ok((s, next)) => res matches Ok(l) && l.matches(s) && final(cursor).pos() == next,
            Err(e) => res is Err && res->Err_0.kind() == e,
        },
{
    let ghost b = cursor.bytes();
    let ghost pos = cursor.pos();
    let raw = cursor.take(LVLF_SIZE)?;
    let start = read_i32_le(raw, 0);
    let number_format = raw[4];
    if number_format == 0x08 || number_format == 0x09 || number_format == 0x0F || number_format == 0x13 {
        return Err(invalid_list("list level uses a reserved MSONFC"));
    }
    let start_at: u32 = if number_format == 0x17 || number_format == 0xFF {
        0
    } else {
        if start < 0 {
            return Err(invalid_list("list level has a negative start"));
        }
        start as u32
    };
    if start_at > 0x7FFF {
        return Err(invalid_list("list level start exceeds 0x7FFF"));
    }
    let info = raw[5];
    let justification = info % 4;
    if justification == 3 {
        return Err(invalid_list("list level has invalid justification 3"));
    }
    let placeholder_offsets: [u8; 9] = [raw[6], raw[7], raw[8], raw[9], raw[10], raw[11], raw[12], raw[13], raw[14]];
    assert(placeholder_offsets@ =~= raw@.subrange(6, 15));
    validate_placeholder_shape(&placeholder_offsets, level_index)?;
    let follow = if raw[15] == 0 {
        ListFollow::Tab
    } else if raw[15] == 1 {
        ListFollow::Space
    } else if raw[15] == 2 {
        ListFollow::Nothing
    } else {
        return Err(invalid_list("list level has an invalid ixchFollow"));
    };
    let chpx_length = raw[24] as usize;
    let papx_length = raw[25] as usize;
    let restart_limit = raw[26];
    let no_restart = (info / 8) % 2 == 1;
    if no_restart && restart_limit > level_index {
        return Err(invalid_list("list level restart limit exceeds its level"));
    }
    let papx = cursor.take(papx_length)?;
    let chpx = cursor.take(chpx_length)?;
    let paragraph_sprms = decode_list_grpprl(papx, PropertyGroup::Paragraph, level_index)?;
    let character_sprms = decode_list_grpprl(chpx, PropertyGroup::Character, level_index)?;
    let text_length = cursor.read_u16()? as usize;
    let text_bytes = cursor.take(2 * text_length)?;
    let tb_len = text_bytes.len();
    let mut level_text: Vec<u16> = Vec::new();
    let mut k: usize = 0;
    while k < text_length
        invariant
            tb_len == text_bytes@.len(),
            text_bytes@.len() == 2 * text_length,
            k <= text_length,
            level_text@ == units_at(text_bytes@, 0, k as int),
        decreases text_length - k,
    {
        level_text.push(read_u16_le(text_bytes, 2 * k));
        assert(level_text@ =~= units_at(text_bytes@, 0, k as int + 1));
        k = k + 1;
    }
    proof {
        let p3 = pos + 28 + papx_length + chpx_length;
        assert forall|j: int| 0 <= j < text_length implies #[trigger] units_at(text_bytes@, 0, text_length as int)[j]
            == units_at(b, p3 + 2, text_length as int)[j] by {
            assert(text_bytes@[2 * j] == b[p3 + 2 + 2 * j]);
            assert(text_bytes@[2 * j + 1] == b[p3 + 2 + 2 * j + 1]);
        }
        assert(level_text@ =~= units_at(b, p3 + 2, text_length as int));
    }
    validate_placeholders(&placeholder_offsets, level_text.as_slice(), level_index, number_format)?;
    Ok(
        ListLevel {
            start_at,
            number_format,
            justification,
            legal_numbering: (info / 4) % 2 == 1,
            no_restart,
            restart_limit,
            follow,
            placeholder_offsets,
            level_text,
            paragraph_sprms,
            character_sprms,
        },
    )
}

/// One `LSTF` and its one or nine appended levels.
#[derive(Debug, Clone, PartialEq, Eq)]
pub struct ListDefinition {
    /// Unique source list identifier.
    pub lsid: i32,
    /// Whether only level zero exists.
    pub simple: bool,
    /// Whether unused levels are tentative hybrid-list levels.
    pub hybrid: bool,
    /// Paragraph style indexes linked to levels (`0x0FFF` means none).
    pub paragraph_styles: [u16; 9],
    /// Source levels in level order.
    pub levels: Vec<ListLevel>,
}

/// Per-level formatting or start-value override.
#[derive(Debug, Clone, PartialEq, Eq)]
pub struct ListLevelOverride {
    /// Zero-based list level.
    pub level: u8,
    /// Start override when no complete formatting override is present.
    pub start_at: Option<u32>,
    /// Complete replacement level.
    pub formatting: Option<ListLevel>,
}

/// One `LFO` list instance referenced by paragraph `sprmPIlfo` values.
#[derive(Debug, Clone, PartialEq, Eq)]
pub struct ListOverride {
    /// Stable OOXML-compatible 1-based instance identifier.
    pub num_id: u32,
    /// Identifier of the corresponding source definition.
    pub lsid: i32,
    /// First main-story paragraph CP, when recorded by Word.
    pub first_cp: Option<u32>,
    /// Per-level overrides.
    pub levels: Vec<ListLevelOverride>,
}

/// Resolved list identity attached to one projected paragraph.
#[derive(Debug, Clone, Copy, PartialEq, Eq, Structural)]
pub struct ResolvedListParagraph {
    /// Main-story paragraph CP used to make the projection marker unique.
    pub cp: u32,
    /// 1-based list instance identifier.
    pub num_id: u32,
    /// Zero-based level.
    pub level: u8,
    /// Negative `ilfo` preserves direct paragraph indents.
    pub preserve_indents: bool,
}

/// The content of a list definition.
pub struct DefinitionSpec {
    pub lsid: i32,
    pub simple: bool,
    pub hybrid: bool,
    pub paragraph_styles: Seq<u16>,
    pub levels: Seq<LevelSpec>,
}

/// The content of a level override.
pub struct LevelOverrideSpec {
    pub level: u8,
    pub start_at: Option<u32>,
    pub formatting: Option<LevelSpec>,
}

/// The content of a list instance.
pub struct OverrideSpec {
    pub num_id: u32,
    pub lsid: i32,
    pub first_cp: Option<u32>,
    pub levels: Seq<LevelOverrideSpec>,
}

/// Whether every level of `v` holds the corresponding entry of `s`.
pub open spec fn levels_match(v: Seq<ListLevel>, s: Seq<LevelSpec>) -> bool {
    v.len() == s.len() && forall|i: int| 0 <= i < v.len() ==> #[trigger] v[i].matches(s[i])
}

impl ListDefinition {
    /// Whether this definition holds `s`.
    pub open spec fn matches(self, s: DefinitionSpec) -> bool {
        &&& self.lsid == s.lsid
        &&& self.simple == s.simple
        &&& self.hybrid == s.hybrid
        &&& self.paragraph_styles@ == s.paragraph_styles
        &&& levels_match(self.levels@, s.levels)
    }
}

impl ListLevelOverride {
    /// Whether this override holds `s`.
    pub open spec fn matches(self, s: LevelOverrideSpec) -> bool {
        &&& self.level == s.level
        &&& self.start_at == s.start_at
        &&& match (self.formatting, s.formatting) {
            (Some(l), Some(ls)) => l.matches(ls),
            (None, None) => true,
            _ => false,
        }
    }
}

/// Whether every level override of `v` holds the corresponding entry of `s`.
pub open spec fn level_overrides_match(v: Seq<ListLevelOverride>, s: Seq<LevelOverrideSpec>) -> bool {
    v.len() == s.len() && forall|i: int| 0 <= i < v.len() ==> #[trigger] v[i].matches(s[i])
}

impl ListOverride {
    /// Whether this instance holds `s`.
    pub open spec fn matches(self, s: OverrideSpec) -> bool {
        &&& self.num_id == s.num_id
        &&& self.lsid == s.lsid
        &&& self.first_cp == s.first_cp
        &&& level_overrides_match(self.levels@, s.levels)
    }
}

/// Whether every definition of `v` holds the corresponding entry of `s`.
pub open spec fn definitions_match(v: Seq<ListDefinition>, s: Seq<DefinitionSpec>) -> bool {
    v.len() == s.len() && forall|i: int| 0 <= i < v.len() ==> #[trigger] v[i].matches(s[i])
}

/// Whether every instance of `v` holds the corresponding entry of `s`.
pub open spec fn overrides_match(v: Seq<ListOverride>, s: Seq<OverrideSpec>) -> bool {
    v.len() == s.len() && forall|i: int| 0 <= i < v.len() ==> #[trigger] v[i].matches(s[i])
}

// ---- PlfLst.

/// Identifier of `LSTF` `k` of `PlfLst` header `h`.
pub open spec fn lstf_lsid(h: Seq<u8>, k: int) -> i32 {
    le_i32(h, 2 + 28 * k)
}

/// Linked style of level `i` of `LSTF` `k`.
pub open spec fn lstf_style(h: Seq<u8>, k: int, i: int) -> u16 {
    le_u16(h, 2 + 28 * k + 8 + 2 * i)
}

/// Flags byte of `LSTF` `k`.
pub open spec fn lstf_flags(h: Seq<u8>, k: int) -> u8 {
    h[2 + 28 * k + 26]
}

/// Whether `LSTF` `k` is valid: its identifier is neither reserved nor used
/// by an earlier `LSTF`, its linked styles are indexes, and its reserved
/// flag bits are zero.
pub open spec fn lstf_ok(h: Seq<u8>, k: int) -> bool {
    &&& lstf_lsid(h, k) != -1
    &&& forall|j: int| 0 <= j < k ==> lstf_lsid(h, j) != lstf_lsid(h, k)
    &&& forall|i: int| 0 <= i < 9 ==> lstf_style(h, k, i) <= 0x0FFF
    &&& lstf_flags(h, k) < 0x20
}

/// Number of levels appended for `LSTF` `k`: one for a simple list, else nine.
pub open spec fn lstf_level_count(h: Seq<u8>, k: int) -> int {
    if lstf_flags(h, k) % 2 == 1 {
        1
    } else {
        9
    }
}

/// The first `i` levels read from `pos` of `lb`, with the position after them.
pub open spec fn def_levels(lb: Seq<u8>, pos: int, i: int) -> Outcome<(Seq<LevelSpec>, int)>
    decreases i,
{
    if i <= 0 {
        Ok((seq![], pos))
    } else {
        match def_levels(lb, pos, i - 1) {
            Err(e) => Err(e),
            Ok((ls, p)) => match level_outcome(lb, p, i - 1) {
                Err(e) => Err(e),
                Ok((l, p2)) => Ok((ls.push(l), p2)),
            },
        }
    }
}

/// The levels of the first `k` definitions, read in turn from the start of `lb`.
pub open spec fn defs_levels(lb: Seq<u8>, h: Seq<u8>, k: int) -> Outcome<(Seq<Seq<LevelSpec>>, int)>
    decreases k,
{
    if k <= 0 {
        Ok((seq![], 0))
    } else {
        match defs_levels(lb, h, k - 1) {
            Err(e) => Err(e),
            Ok((all, p)) => match def_levels(lb, p, lstf_level_count(h, k - 1)) {
                Err(e) => Err(e),
                Ok((ls, p2)) => Ok((all.push(ls), p2)),
            },
        }
    }
}

/// Definition `k` with levels `levels`.
pub open spec fn definition_at(h: Seq<u8>, k: int, levels: Seq<LevelSpec>) -> DefinitionSpec {
    DefinitionSpec {
        lsid: lstf_lsid(h, k),
        simple: lstf_flags(h, k) % 2 == 1,
        hybrid: (lstf_flags(h, k) / 16) % 2 == 1,
        paragraph_styles: Seq::new(9, |i: int| lstf_style(h, k, i)),
        levels,
    }
}

/// The definitions of the `PlfLst` at `[off, off + len)` of `table`, whose
/// levels follow it in the stream.
pub open spec fn definitions_outcome(table: Seq<u8>, off: int, len: int, limits: DocLimits) -> Outcome<
    Seq<DefinitionSpec>,
> {
    if off + len > table.len() {
        Err(ErrorKind::OutOfBounds)
    } else {
        let h = table.subrange(off, off + len);
        let raw_count = le_u16(h, 0);
        if h.len() < 2 {
            Err(ErrorKind::OutOfBounds)
        } else if raw_count >= 0x8000 {
            Err(ErrorKind::InvalidList)
        } else if raw_count > limits.max_lists {
            Err(ErrorKind::ResourceLimit)
        } else if h.len() != 2 + 28 * raw_count || exists|k: int| 0 <= k < raw_count && !#[trigger] lstf_ok(h, k) {
            Err(ErrorKind::InvalidList)
        } else {
            match defs_levels(table.subrange(off + len, table.len() as int), h, raw_count as int) {
                Err(e) => Err(e),
                Ok((all, _)) => Ok(Seq::new(raw_count as nat, |k: int| definition_at(h, k, all[k]))),
            }
        }
    }
}

// ---- PlfLfo.

/// Identifier of `LFO` `k`.
pub open spec fn lfo_lsid(b: Seq<u8>, k: int) -> i32 {
    le_i32(b, 4 + 16 * k)
}

/// Number of level overrides of `LFO` `k`.
pub open spec fn lfo_level_count(b: Seq<u8>, k: int) -> u8 {
    b[4 + 16 * k + 12]
}

/// Whether `LFO` `k` has at most nine level overrides and a valid `ibstFltAutoNum`.
pub open spec fn lfo_header_ok(b: Seq<u8>, k: int) -> bool {
    lfo_level_count(b, k) <= 9 && (b[4 + 16 * k + 13] == 0 || b[4 + 16 * k + 13] >= 0xFC)
}

/// The first `i` level overrides of one `LFOLVL` array read from `pos`.
pub open spec fn lfolvls(b: Seq<u8>, pos: int, i: int) -> Outcome<(Seq<LevelOverrideSpec>, int)>
    decreases i,
{
    if i <= 0 {
        Ok((seq![], pos))
    } else {
        match lfolvls(b, pos, i - 1) {
            Err(e) => Err(e),
            Ok((prev, p)) => if p + 8 > b.len() {
                Err(ErrorKind::OutOfBounds)
            } else {
                let start = le_i32(b, p);
                let flags = le_u32(b, p + 4);
                let level = flags % 16;
                let has_start = (flags / 16) % 2 == 1;
                let has_formatting = (flags / 32) % 2 == 1;
                if level > 8 || exists|j: int| 0 <= j < prev.len() && (#[trigger] prev[j]).level == level {
                    Err(ErrorKind::InvalidList)
                } else {
                    let formatting: Outcome<(Option<LevelSpec>, int)> = if has_formatting {
                        match level_outcome(b, p + 8, level as int) {
                            Err(e) => Err(e),
                            Ok((l, p2)) => Ok((Some(l), p2)),
                        }
                    } else {
                        Ok((None, p + 8))
                    };
                    match formatting {
                        Err(e) => Err(e),
                        Ok((f, p2)) => if has_start && !has_formatting && (start < 0 || start > 0x7FFF) {
                            Err(ErrorKind::InvalidList)
                        } else {
                            Ok(
                                (
                                    prev.push(
                                        LevelOverrideSpec {
                                            level: level as u8,
                                            start_at: if has_start && !has_formatting {
                                                Some(start as u32)
                                            } else {
                                                None
                                            },
                                            formatting: f,
                                        },
                                    ),
                                    p2,
                                ),
                            )
                        },
                    }
                }
            },
        }
    }
}

/// The bodies of the first `k` `LFO`s, read in turn from `pos`: first CP and
/// level overrides.
pub open spec fn lfo_bodies(b: Seq<u8>, pos: int, main: u32, k: int) -> Outcome<(Seq<OverrideSpec>, int)>
    decreases k,
{
    if k <= 0 {
        Ok((seq![], pos))
    } else {
        match lfo_bodies(b, pos, main, k - 1) {
            Err(e) => Err(e),
            Ok((prev, p)) => if p + 4 > b.len() {
                Err(ErrorKind::OutOfBounds)
            } else {
                let cp = le_u32(b, p);
                if cp != u32::MAX && cp >= main {
                    Err(ErrorKind::InvalidList)
                } else {
                    match lfolvls(b, p + 4, lfo_level_count(b, k - 1) as int) {
                        Err(e) => Err(e),
                        Ok((levels, p2)) => Ok(
                            (
                                prev.push(
                                    OverrideSpec {
                                        num_id: k as u32,
                                        lsid: lfo_lsid(b, k - 1),
                                        first_cp: if cp == u32::MAX {
                                            None
                                        } else {
                                            Some(cp)
                                        },
                                        levels,
                                    },
                                ),
                                p2,
                            ),
                        ),
                    }
                }
            },
        }
    }
}

/// The instances of a `PlfLfo` `b` for a main story of `main` characters.
pub open spec fn overrides_outcome(b: Seq<u8>, main: u32, limits: DocLimits) -> Outcome<Seq<OverrideSpec>> {
    let count = le_u32(b, 0);
    if b.len() < 4 {
        Err(ErrorKind::OutOfBounds)
    } else if count > limits.max_lists {
        Err(ErrorKind::ResourceLimit)
    } else if 16 * count > usize::MAX || b.len() - 4 < 16 * count || exists|k: int|
        0 <= k < count && !#[trigger] lfo_header_ok(b, k) {
        Err(ErrorKind::InvalidList)
    } else {
        match lfo_bodies(b, 4 + 16 * count, main, count as int) {
            Err(e) => Err(e),
            Ok((os, p)) => if p != b.len() {
                Err(ErrorKind::InvalidList)
            } else {
                Ok(os)
            },
        }
    }
}

/// Rejects a count above its limit.
fn enforce_count(resource: &'static str, actual: usize, limit: usize) -> (res: Result<()>)
    ensures
        actual <= limit ==> res is Ok,
        actual > limit ==> res is Err && res->Err_0.kind() == ErrorKind::ResourceLimit,
{
    if actual > limit {
        return Err(DocError::ResourceLimit { resource, actual: actual as u64, limit: limit as u64 });
    }
    Ok(())
}

/// Whether `lsids` holds `lsid` before index `k`.
fn lsid_seen(lsids: &[i32], k: usize, lsid: i32) -> (res: bool)
    requires
        k <= lsids@.len(),
    ensures
        res == exists|j: int| 0 <= j < k && lsids@[j] == lsid,
{
    let mut j: usize = 0;
    while j < k
        invariant
            k <= lsids@.len(),
            j <= k,
            forall|i: int| 0 <= i < j ==> lsids@[i] != lsid,
        decreases k - j,
    {
        if lsids[j] == lsid {
            return true;
        }
        j = j + 1;
    }
    false
}

/// Reads and checks the `count` LSTFs of `PlfLst` header `header`: their
/// identifiers, flags and linked styles.
fn parse_lstfs(header: &[u8], count: usize) -> (res: Result<(Vec<i32>, Vec<u8>, Vec<[u16; 9]>)>)
    requires
        header@.len() == 2 + 28 * count,
        count == le_u16(header@, 0),
    ensures
        res is Ok <==> forall|j: int| 0 <= j < count ==> #[trigger] lstf_ok(header@, j),
        res is Err ==> res->Err_0.kind() == ErrorKind::InvalidList,
        res matches Ok((lsids, flags_of, styles_of)) ==> {
            &&& lsids@.len() == count
            &&& flags_of@.len() == count
            &&& styles_of@.len() == count
            &&& forall|j: int| 0 <= j < count ==> lsids@[j] == #[trigger] lstf_lsid(header@, j)
            &&& forall|j: int| 0 <= j < count ==> flags_of@[j] == #[trigger] lstf_flags(header@, j)
            &&& forall|j: int|
                0 <= j < count ==> (#[trigger] styles_of@[j])@ == Seq::new(9, |i: int| lstf_style(header@, j, i))
        },
{
    let ghost h = header@;
    let hlen = header.len();
    let mut lsids: Vec<i32> = Vec::new();
    let mut flags_of: Vec<u8> = Vec::new();
    let mut styles_of: Vec<[u16; 9]> = Vec::new();
    let mut k: usize = 0;
    while k < count
        invariant
            h == header@,
            hlen == h.len(),
            hlen == 2 + 28 * count,
            count == le_u16(h, 0),
            k <= count,
            lsids@.len() == k,
            flags_of@.len() == k,
            styles_of@.len() == k,
            forall|j: int| 0 <= j < k ==> #[trigger] lstf_ok(h, j),
            forall|j: int| 0 <= j < k ==> lsids@[j] == #[trigger] lstf_lsid(h, j),
            forall|j: int| 0 <= j < k ==> flags_of@[j] == #[trigger] lstf_flags(h, j),
            forall|j: int| 0 <= j < k ==> (#[trigger] styles_of@[j])@ == Seq::new(9, |i: int| lstf_style(h, j, i)),
        decreases count - k,
    {
        let base = 2 + 28 * k;
        let lsid = read_i32_le(header, base);
        if lsid == -1 || lsid_seen(lsids.as_slice(), k, lsid) {
            proof {
                if lsid != -1 {
                    let j = choose|j: int| 0 <= j < k && lsids@[j] == lsid;
                    assert(lstf_lsid(h, j) == lstf_lsid(h, k as int));
                }
                assert(!lstf_ok(h, k as int));
            }
            return Err(invalid_list("LSTF lsid is reserved or duplicated"));
        }
        let mut styles: [u16; 9] = [0; 9];
        let mut i: usize = 0;
        while i < 9
            invariant
                h == header@,
                hlen == h.len(),
                hlen == 2 + 28 * count,
                k < count,
                base == 2 + 28 * k,
                i <= 9,
                styles@.len() == 9,
                forall|q: int| 0 <= q < i ==> styles@[q] == lstf_style(h, k as int, q) && styles@[q] <= 0x0FFF,
            decreases 9 - i,
        {
            let style = read_u16_le(header, base + 8 + 2 * i);
            if style > 0x0FFF {
                assert(!lstf_ok(h, k as int)) by {
                    assert(lstf_style(h, k as int, i as int) > 0x0FFF);
                }
                return Err(invalid_list("LSTF has an invalid linked style index"));
            }
            styles.set(i, style);
            i = i + 1;
        }
        let flags = header[base + 26];
        if flags >= 0x20 {
            assert(!lstf_ok(h, k as int));
            return Err(invalid_list("LSTF has nonzero reserved flag bits"));
        }
        proof {
            assert(forall|j: int| 0 <= j < k ==> lstf_lsid(h, j) != lstf_lsid(h, k as int)) by {
                assert forall|j: int| 0 <= j < k implies lstf_lsid(h, j) != lstf_lsid(h, k as int) by {
                    assert(lsids@[j] == lstf_lsid(h, j));
                }
            }
            assert(lstf_ok(h, k as int));
            assert(styles@ =~= Seq::new(9, |q: int| lstf_style(h, k as int, q)));
        }
        lsids.push(lsid);
        flags_of.push(flags);
        styles_of.push(styles);
        k = k + 1;
    }
    Ok((lsids, flags_of, styles_of))
}

/// Reads `level_count` levels in turn at the cursor.
fn parse_def_levels(levels: &mut ByteCursor, level_count: usize) -> (res: Result<Vec<ListLevel>>)
    requires
        old(levels).wf(),
        level_count <= 9,
    ensures
        final(levels).wf(),
        final(levels).bytes() == old(levels).bytes(),
        match def_levels(old(levels).bytes(), old(levels).pos(), level_count as int) {
            Ok((ls, p)) => res matches Ok(v) && levels_match(v@, ls) && final(levels).pos() == p,
            Err(e) => res is Err && res->Err_0.kind() == e,
        },
{
    let ghost lb = levels.bytes();
    let ghost start = levels.pos();
    let mut def_level_list: Vec<ListLevel> = Vec::new();
    let mut level_index: usize = 0;
    while level_index < level_count
        invariant
            lb == levels.bytes(),
            lb == old(levels).bytes(),
            start == old(levels).pos(),
            levels.wf(),
            level_count <= 9,
            level_index <= level_count,
            def_levels(lb, start, level_index as int) matches Ok((ls, p)) && p == levels.pos()
                && levels_match(def_level_list@, ls) && ls.len() == level_index,
        decreases level_count - level_index,
    {
        let ghost prev = def_levels(lb, start, level_index as int)->Ok_0.0;
        let level = match parse_level(levels, level_index as u8) {
            Ok(l) => l,
            Err(e) => {
                proof {
                    lemma_def_levels_failed(lb, start, level_index as int + 1, level_count as int);
                }
                return Err(e);
            },
        };
        let ghost before = def_level_list@;
        def_level_list.push(level);
        proof {
            let ls = def_levels(lb, start, level_index as int + 1)->Ok_0.0;
            assert(ls == prev.push(level_outcome(lb, def_levels(lb, start, level_index as int)->Ok_0.1, level_index as int)->Ok_0.0));
            assert forall|i: int| 0 <= i < def_level_list@.len() implies #[trigger] def_level_list@[i].matches(ls[i]) by {
                if i < level_index {
                    assert(def_level_list@[i] == before[i]);
                    assert(before[i].matches(prev[i]));
                }
            }
        }
        level_index = level_index + 1;
    }
    Ok(def_level_list)
}

/// Parses the `PlfLst` at `[offset, offset + length)` of the table stream and
/// the levels appended after it.
#[verifier::rlimit(80)]
#[verifier::spinoff_prover]
pub fn parse_definitions(table_stream: &[u8], offset: u32, length: u32, limits: DocLimits) -> (res: Result<
    Vec<ListDefinition>,
>)
    ensures
        match definitions_outcome(table_stream@, offset as int, length as int, limits) {
            Ok(ds) => res matches Ok(v) && definitions_match(v@, ds),
            Err(e) => res is Err && res->Err_0.kind() == e,
        },
{
    let header = checked_slice(table_stream, offset, length, "PlfLst")?;
    let ghost h = header@;
    let hlen = header.len();
    if hlen < 2 {
        return Err(DocError::OutOfBounds { structure: "PlfLst", offset: 0, end: 2, available: hlen });
    }
    let raw_count = read_u16_le(header, 0);
    if raw_count >= 0x8000 {
        return Err(invalid_list("PlfLst cLst is negative"));
    }
    let count = raw_count as usize;
    enforce_count("list definition", count, limits.max_lists)?;
    if hlen != 2 + 28 * count {
        return Err(invalid_list("PlfLst header length does not match its LSTF count"));
    }
    let (lsids, flags_of, styles_of) = parse_lstfs(header, count)?;
    let tlen = table_stream.len();
    let level_offset = offset as usize + hlen;
    let level_bytes = &table_stream[level_offset..tlen];
    let ghost lb = level_bytes@;
    let mut levels = ByteCursor::new(level_bytes, "PlfLst appended LVLs");
    let mut definitions: Vec<ListDefinition> = Vec::new();
    let mut d: usize = 0;
    while d < count
        invariant
            h == header@,
            offset + length <= table_stream@.len(),
            h == table_stream@.subrange(offset as int, offset + length),
            lb == table_stream@.subrange(offset + length, table_stream@.len() as int),
            hlen == h.len(),
            hlen == 2 + 28 * count,
            count == le_u16(h, 0),
            count < 0x8000,
            count <= limits.max_lists,
            forall|j: int| 0 <= j < count ==> #[trigger] lstf_ok(h, j),
            lsids@.len() == count,
            flags_of@.len() == count,
            styles_of@.len() == count,
            forall|j: int| 0 <= j < count ==> lsids@[j] == #[trigger] lstf_lsid(h, j),
            forall|j: int| 0 <= j < count ==> flags_of@[j] == #[trigger] lstf_flags(h, j),
            forall|j: int|
                0 <= j < count ==> (#[trigger] styles_of@[j])@ == Seq::new(9, |i: int| lstf_style(h, j, i)),
            d <= count,
            levels.wf(),
            levels.bytes() == lb,
            defs_levels(lb, h, d as int) matches Ok((all, p)) && p == levels.pos() && definitions@.len() == d
                && all.len() == d
                && forall|j: int| 0 <= j < d ==> #[trigger] definitions@[j].matches(definition_at(h, j, all[j])),
        decreases count - d,
    {
        let ghost all_before = defs_levels(lb, h, d as int)->Ok_0.0;
        let simple = flags_of[d] % 2 == 1;
        let level_count: usize = if simple {
            1
        } else {
            MAX_LEVELS
        };
        let ghost start = levels.pos();
        let def_level_list = match parse_def_levels(&mut levels, level_count) {
            Ok(v) => v,
            Err(e) => {
                proof {
                    assert(level_count as int == lstf_level_count(h, d as int));
                    lemma_defs_levels_failed(lb, h, d as int + 1, count as int);
                }
                return Err(e);
            },
        };
        assert(level_count as int == lstf_level_count(h, d as int));
        let ghost this_levels = def_levels(lb, start, level_count as int)->Ok_0.0;
        let definition = ListDefinition {
            lsid: lsids[d],
            simple,
            hybrid: (flags_of[d] / 16) % 2 == 1,
            paragraph_styles: styles_of[d],
            levels: def_level_list,
        };
        let ghost defs_before = definitions@;
        definitions.push(definition);
        proof {
            let all = defs_levels(lb, h, d as int + 1)->Ok_0.0;
            assert(all == all_before.push(this_levels));
            assert forall|j: int| 0 <= j < d + 1 implies #[trigger] definitions@[j].matches(definition_at(h, j, all[j])) by {
                if j < d {
                    assert(all[j] == all_before[j]);
                    assert(definitions@[j] == defs_before[j]);
                    assert(defs_before[j].matches(definition_at(h, j, all_before[j])));
                }
            }
        }
        d = d + 1;
    }
    proof {
        let all = defs_levels(lb, h, count as int)->Ok_0.0;
        let ds = Seq::new(count as nat, |k: int| definition_at(h, k, all[k]));
        assert forall|j: int| 0 <= j < definitions@.len() implies #[trigger] definitions@[j].matches(ds[j]) by {
            assert(definitions@[j].matches(definition_at(h, j, all[j])));
        }
    }
    Ok(definitions)
}

/// Once reading the levels of some definition fails, reading those of more
/// definitions keeps the failure.
proof fn lemma_defs_levels_failed(lb: Seq<u8>, h: Seq<u8>, i: int, j: int)
    requires
        0 <= i <= j,
        defs_levels(lb, h, i) is Err,
    ensures
        defs_levels(lb, h, j) == defs_levels(lb, h, i),
    decreases j - i,
{
    if j > i {
        lemma_defs_levels_failed(lb, h, i, j - 1);
    }
}

/// Once reading levels fails, reading more keeps the failure.
proof fn lemma_def_levels_failed(lb: Seq<u8>, pos: int, i: int, j: int)
    requires
        0 <= i <= j,
        def_levels(lb, pos, i) is Err,
    ensures
        def_levels(lb, pos, j) == def_levels(lb, pos, i),
    decreases j - i,
{
    if j > i {
        lemma_def_levels_failed(lb, pos, i, j - 1);
    }
}

/// One `LFO` header: its list identifier and number of level overrides.
struct RawLfo {
    lsid: i32,
    override_count: u8,
}

/// Reads the `count` `LFO` headers following the count field.
fn parse_lfo_headers(cursor: &mut ByteCursor, total_length: usize, count: usize) -> (res: Result<Vec<RawLfo>>)
    requires
        old(cursor).wf(),
        old(cursor).pos() == 4,
        total_length == old(cursor).bytes().len(),
    ensures
        final(cursor).wf(),
        final(cursor).bytes() == old(cursor).bytes(),
        ({
            let b = old(cursor).bytes();
            if 16 * count > usize::MAX || b.len() - 4 < 16 * count || exists|k: int|
                0 <= k < count && !#[trigger] lfo_header_ok(b, k) {
                res is Err && res->Err_0.kind() == ErrorKind::InvalidList
            } else {
                res matches Ok(v) && v@.len() == count && final(cursor).pos() == 4 + 16 * count && forall|k: int|
                    0 <= k < count ==> (#[trigger] v@[k]).lsid == lfo_lsid(b, k) && v@[k].override_count
                        == lfo_level_count(b, k)
            }
        }),
{
    let ghost b = cursor.bytes();
    proof {
        cursor.lemma_wf();
    }
    if count > usize::MAX / LFO_SIZE {
        return Err(invalid_list("PlfLfo LFO byte count overflow"));
    }
    let header_bytes = count * LFO_SIZE;
    let available = if total_length >= cursor.position() {
        total_length - cursor.position()
    } else {
        0
    };
    if available < header_bytes {
        return Err(invalid_list("PlfLfo is too short for its LFO headers"));
    }
    let mut raw_lfos: Vec<RawLfo> = Vec::new();
    let mut k: usize = 0;
    while k < count
        invariant
            b == cursor.bytes(),
            b == old(cursor).bytes(),
            cursor.wf(),
            b.len() == total_length,
            16 * count <= usize::MAX,
            4 + 16 * count <= b.len(),
            k <= count,
            cursor.pos() == 4 + 16 * k,
            raw_lfos@.len() == k,
            forall|j: int| 0 <= j < k ==> #[trigger] lfo_header_ok(b, j),
            forall|j: int|
                0 <= j < k ==> (#[trigger] raw_lfos@[j]).lsid == lfo_lsid(b, j) && raw_lfos@[j].override_count
                    == lfo_level_count(b, j),
        decreases count - k,
    {
        let raw = cursor.take(LFO_SIZE)?;
        let lsid = read_i32_le(raw, 0);
        let override_count = raw[12];
        if override_count > 9 {
            assert(!lfo_header_ok(b, k as int));
            return Err(invalid_list("LFO has more than nine level overrides"));
        }
        if !(raw[13] == 0 || raw[13] >= 0xFC) {
            assert(!lfo_header_ok(b, k as int));
            return Err(invalid_list("LFO has an invalid ibstFltAutoNum"));
        }
        assert(le_i32(raw@, 0) == lfo_lsid(b, k as int)) by {
            assert(raw@[0] == b[4 + 16 * k]);
            assert(raw@[1] == b[4 + 16 * k + 1]);
            assert(raw@[2] == b[4 + 16 * k + 2]);
            assert(raw@[3] == b[4 + 16 * k + 3]);
        }
        raw_lfos.push(RawLfo { lsid, override_count });
        k = k + 1;
    }
    Ok(raw_lfos)
}

/// Whether an earlier override of `levels` is for `level`.
fn level_seen(levels: &[ListLevelOverride], level: u8) -> (res: bool)
    ensures
        res == exists|j: int| 0 <= j < levels@.len() && (#[trigger] levels@[j]).level == level,
{
    let mut j: usize = 0;
    while j < levels.len()
        invariant
            j <= levels@.len(),
            forall|i: int| 0 <= i < j ==> (#[trigger] levels@[i]).level != level,
        decreases levels@.len() - j,
    {
        if levels[j].level == level {
            return true;
        }
        j = j + 1;
    }
    false
}

/// Reads the `count` level overrides of one `LFO` at the cursor.
#[verifier::rlimit(60)]
fn parse_lfo_levels(cursor: &mut ByteCursor, count: u8) -> (res: Result<Vec<ListLevelOverride>>)
    requires
        old(cursor).wf(),
    ensures
        final(cursor).wf(),
        final(cursor).bytes() == old(cursor).bytes(),
        match lfolvls(old(cursor).bytes(), old(cursor).pos(), count as int) {
            Ok((ls, p)) => res matches Ok(v) && level_overrides_match(v@, ls) && final(cursor).pos() == p,
            Err(e) => res is Err && res->Err_0.kind() == e,
        },
{
    let ghost b = cursor.bytes();
    let ghost start = cursor.pos();
    let mut levels: Vec<ListLevelOverride> = Vec::new();
    let mut i: u8 = 0;
    while i < count
        invariant
            b == cursor.bytes(),
            b == old(cursor).bytes(),
            start == old(cursor).pos(),
            cursor.wf(),
            i <= count,
            lfolvls(b, start, i as int) matches Ok((prev, p)) && p == cursor.pos() && level_overrides_match(
                levels@,
                prev,
            ) && prev.len() == i,
        decreases count - i,
    {
        let ghost prev = lfolvls(b, start, i as int)->Ok_0.0;
        let base = match cursor.take(LFOLVL_BASE_SIZE) {
            Ok(v) => v,
            Err(e) => {
                proof {
                    lemma_lfolvls_failed(b, start, i as int + 1, count as int);
                }
                return Err(e);
            },
        };
        let ghost p = cursor.pos() - 8;
        let start_value = read_i32_le(base, 0);
        let flags = read_u32_le(base, 4);
        assert(le_i32(base@, 0) == le_i32(b, p) && le_u32(base@, 4) == le_u32(b, p + 4)) by {
            assert(base@[0] == b[p]);
            assert(base@[1] == b[p + 1]);
            assert(base@[2] == b[p + 2]);
            assert(base@[3] == b[p + 3]);
            assert(base@[4] == b[p + 4]);
            assert(base@[5] == b[p + 5]);
            assert(base@[6] == b[p + 6]);
            assert(base@[7] == b[p + 7]);
        }
        let level = (flags % 16) as u8;
        let seen = level_seen(levels.as_slice(), level);
        if level > 8 || seen {
            proof {
                if seen {
                    let j = choose|j: int| 0 <= j < levels@.len() && (#[trigger] levels@[j]).level == level;
                    assert(levels@[j].matches(prev[j]));
                    assert(prev[j].level == level);
                }
                lemma_lfolvls_failed(b, start, i as int + 1, count as int);
            }
            return Err(invalid_list("LFO has an invalid or duplicate override level"));
        }
        proof {
            assert forall|j: int| 0 <= j < prev.len() implies (#[trigger] prev[j]).level != level by {
                assert(levels@[j].matches(prev[j]));
            }
        }
        let has_start = (flags / 16) % 2 == 1;
        let has_formatting = (flags / 32) % 2 == 1;
        let formatting = if has_formatting {
            match parse_level(cursor, level) {
                Ok(l) => Some(l),
                Err(e) => {
                    proof {
                        lemma_lfolvls_failed(b, start, i as int + 1, count as int);
                    }
                    return Err(e);
                },
            }
        } else {
            None
        };
        let start_at = if has_start && !has_formatting {
            if start_value < 0 || start_value > 0x7FFF {
                proof {
                    lemma_lfolvls_failed(b, start, i as int + 1, count as int);
                }
                return Err(invalid_list("LFO start override is negative or exceeds 0x7FFF"));
            }
            Some(start_value as u32)
        } else {
            None
        };
        let ghost before = levels@;
        levels.push(ListLevelOverride { level, start_at, formatting });
        proof {
            let now = lfolvls(b, start, i as int + 1)->Ok_0.0;
            assert(now.len() == i + 1);
            assert forall|j: int| 0 <= j < levels@.len() implies #[trigger] levels@[j].matches(now[j]) by {
                if j < i {
                    assert(levels@[j] == before[j]);
                    assert(before[j].matches(prev[j]));
                    assert(now[j] == prev[j]);
                }
            }
        }
        i = i + 1;
    }
    Ok(levels)
}

/// Once reading level overrides fails, reading more keeps the failure.
proof fn lemma_lfolvls_failed(b: Seq<u8>, pos: int, i: int, j: int)
    requires
        0 <= i <= j,
        lfolvls(b, pos, i) is Err,
    ensures
        lfolvls(b, pos, j) == lfolvls(b, pos, i),
    decreases j - i,
{
    if j > i {
        lemma_lfolvls_failed(b, pos, i, j - 1);
    }
}

/// Once reading `LFO` bodies fails, reading more keeps the failure.
proof fn lemma_lfo_bodies_failed(b: Seq<u8>, pos: int, main: u32, i: int, j: int)
    requires
        0 <= i <= j,
        lfo_bodies(b, pos, main, i) is Err,
    ensures
        lfo_bodies(b, pos, main, j) == lfo_bodies(b, pos, main, i),
    decreases j - i,
{
    if j > i {
        lemma_lfo_bodies_failed(b, pos, main, i, j - 1);
    }
}

/// Parses a `PlfLfo` for a main story of `main_length` characters.
#[verifier::rlimit(60)]
pub fn parse_overrides(bytes: &[u8], main_length: u32, limits: DocLimits) -> (res: Result<Vec<ListOverride>>)
    ensures
        match overrides_outcome(bytes@, main_length, limits) {
            Ok(os) => res matches Ok(v) && overrides_match(v@, os),
            Err(e) => res is Err && res->Err_0.kind() == e,
        },
{
    let ghost b = bytes@;
    let mut cursor = ByteCursor::new(bytes, "PlfLfo");
    let count = cursor.read_u32()? as usize;
    enforce_count("list override", count, limits.max_lists)?;
    let raw_lfos = parse_lfo_headers(&mut cursor, bytes.len(), count)?;
    let ghost body_start = 4 + 16 * count;
    let mut overrides: Vec<ListOverride> = Vec::new();
    let mut index: usize = 0;
    while index < count
        invariant
            b == bytes@,
            b == cursor.bytes(),
            cursor.wf(),
            count == le_u32(b, 0),
            count <= limits.max_lists,
            16 * count <= usize::MAX,
            b.len() - 4 >= 16 * count,
            b.len() >= 4,
            forall|k: int| 0 <= k < count ==> #[trigger] lfo_header_ok(b, k),
            body_start == 4 + 16 * count,
            raw_lfos@.len() == count,
            forall|k: int|
                0 <= k < count ==> (#[trigger] raw_lfos@[k]).lsid == lfo_lsid(b, k) && raw_lfos@[k].override_count
                    == lfo_level_count(b, k),
            index <= count,
            lfo_bodies(b, body_start, main_length, index as int) matches Ok((prev, p)) && p == cursor.pos()
                && overrides_match(overrides@, prev) && prev.len() == index,
        decreases count - index,
    {
        let ghost prev = lfo_bodies(b, body_start, main_length, index as int)->Ok_0.0;
        let cp = match cursor.read_u32() {
            Ok(v) => v,
            Err(e) => {
                proof {
                    lemma_lfo_bodies_failed(b, body_start, main_length, index as int + 1, count as int);
                }
                return Err(e);
            },
        };
        let first_cp = if cp == u32::MAX {
            None
        } else if cp < main_length {
            Some(cp)
        } else {
            proof {
                lemma_lfo_bodies_failed(b, body_start, main_length, index as int + 1, count as int);
            }
            return Err(invalid_list("LFO first CP is outside the main story"));
        };
        let levels = match parse_lfo_levels(&mut cursor, raw_lfos[index].override_count) {
            Ok(v) => v,
            Err(e) => {
                proof {
                    lemma_lfo_bodies_failed(b, body_start, main_length, index as int + 1, count as int);
                }
                return Err(e);
            },
        };
        let ghost before = overrides@;
        overrides.push(ListOverride { num_id: (index + 1) as u32, lsid: raw_lfos[index].lsid, first_cp, levels });
        proof {
            let now = lfo_bodies(b, body_start, main_length, index as int + 1)->Ok_0.0;
            assert(now.len() == index + 1);
            assert forall|j: int| 0 <= j < overrides@.len() implies #[trigger] overrides@[j].matches(now[j]) by {
                if j < index {
                    assert(overrides@[j] == before[j]);
                    assert(before[j].matches(prev[j]));
                    assert(now[j] == prev[j]);
                }
            }
        }
        index = index + 1;
    }
    if cursor.position() != bytes.len() {
        return Err(invalid_list("PlfLfo has trailing bytes"));
    }
    Ok(overrides)
}

/// The index of the first definition from `i` with identifier `lsid`.
pub open spec fn definition_from(defs: Seq<ListDefinition>, lsid: i32, i: int) -> Option<int>
    decreases defs.len() - i,
{
    if i < 0 || i >= defs.len() {
        None
    } else if defs[i].lsid == lsid {
        Some(i)
    } else {
        definition_from(defs, lsid, i + 1)
    }
}

/// Whether some definition of `defs` has identifier `lsid`.
pub open spec fn has_definition(defs: Seq<DefinitionSpec>, lsid: i32) -> bool {
    exists|j: int| 0 <= j < defs.len() && (#[trigger] defs[j]).lsid == lsid
}

/// The instances of the document's `PlfLfo`, none when it is absent.
pub open spec fn overrides_expected(doc: WordBinaryDocument, limits: DocLimits) -> Outcome<Seq<OverrideSpec>> {
    let table = doc.spec_table();
    let ol = doc.spec_fib().locations.spec_get(INDEX_PLF_LFO);
    if !(ol is Some && ol.unwrap().length != 0) {
        Ok(seq![])
    } else if ol.unwrap().offset + ol.unwrap().length > table.len() {
        Err(ErrorKind::OutOfBounds)
    } else {
        overrides_outcome(
            table.subrange(ol.unwrap().offset as int, ol.unwrap().offset + ol.unwrap().length),
            doc.spec_fib().stories.main,
            limits,
        )
    }
}

/// What `ListCollection::parse` gives for `doc`.
pub open spec fn list_collection_result(doc: WordBinaryDocument, limits: DocLimits, res: Result<ListCollection>) -> bool {
    let fib = doc.spec_fib();
    let table = doc.spec_table();
    let dl = fib.locations.spec_get(INDEX_PLF_LST);
    let ol = fib.locations.spec_get(INDEX_PLF_LFO);
    let d_present = dl is Some && dl.unwrap().length != 0;
    let o_present = ol is Some && ol.unwrap().length != 0;
    if !d_present && !o_present {
        res matches Ok(c) && c.spec_definitions().len() == 0 && c.spec_overrides().len() == 0
    } else if !d_present {
        res is Err && res->Err_0.kind() == ErrorKind::InvalidList
    } else {
        match definitions_outcome(table, dl.unwrap().offset as int, dl.unwrap().length as int, limits) {
            Err(e) => res is Err && res->Err_0.kind() == e,
            Ok(ds) => {
                match overrides_expected(doc, limits) {
                    Err(e) => res is Err && res->Err_0.kind() == e,
                    Ok(os) => if exists|i: int| 0 <= i < os.len() && !has_definition(ds, (#[trigger] os[i]).lsid) {
                        res is Err && res->Err_0.kind() == ErrorKind::InvalidList
                    } else {
                        res matches Ok(c) && definitions_match(c.spec_definitions(), ds) && overrides_match(
                            c.spec_overrides(),
                            os,
                        )
                    },
                }
            },
        }
    }
}

/// What `resolve_paragraph` gives for paragraph `cp` with `ilfo` and `ilvl`.
pub open spec fn resolve_outcome(
    defs: Seq<ListDefinition>,
    ovs: Seq<ListOverride>,
    cp: u32,
    ilfo: i16,
    ilvl: u8,
) -> Outcome<Option<ResolvedListParagraph>> {
    let abs: int = if ilfo < 0 {
        -ilfo
    } else {
        ilfo as int
    };
    if ilfo == 0 || ilfo == -2047 {
        Ok(None)
    } else if abs > 0x07FE || ilvl > 8 || abs - 1 >= ovs.len() {
        Err(ErrorKind::InvalidList)
    } else {
        match definition_from(defs, ovs[abs - 1].lsid, 0) {
            None => Err(ErrorKind::InvalidList),
            Some(i) => if ilvl >= defs[i].levels@.len() {
                Err(ErrorKind::InvalidList)
            } else {
                Ok(Some(ResolvedListParagraph { cp, num_id: abs as u32, level: ilvl, preserve_indents: ilfo < 0 }))
            },
        }
    }
}

/// Validated Word list definitions and instances.
#[derive(Debug, Clone, PartialEq, Eq)]
pub struct ListCollection {
    definitions: Vec<ListDefinition>,
    overrides: Vec<ListOverride>,
}

impl Default for ListCollection {
    fn default() -> (res: Self)
        ensures
            res.spec_definitions().len() == 0,
            res.spec_overrides().len() == 0,
    {
        ListCollection { definitions: Vec::new(), overrides: Vec::new() }
    }
}

impl ListCollection {
    /// Source definitions in `PlfLst` order.
    pub closed spec fn spec_definitions(&self) -> Seq<ListDefinition> {
        self.definitions@
    }

    /// Source instances in 1-based `ilfo` order.
    pub closed spec fn spec_overrides(&self) -> Seq<ListOverride> {
        self.overrides@
    }

    /// Parses the document's `PlfLst` and `PlfLfo` and checks that every
    /// instance names a definition.
    #[verifier::rlimit(40)]
    pub fn parse(document: &WordBinaryDocument, limits: DocLimits) -> (res: Result<Self>)
        ensures
            list_collection_result(*document, limits, res),
    {
        let definition_location = match document.fib().locations.list_definitions() {
            Some(l) => if l.is_empty() {
                None
            } else {
                Some(l)
            },
            None => None,
        };
        let override_location = match document.fib().locations.list_overrides() {
            Some(l) => if l.is_empty() {
                None
            } else {
                Some(l)
            },
            None => None,
        };
        let definition_location = match definition_location {
            Some(l) => l,
            None => {
                if override_location.is_none() {
                    return Ok(Self::default());
                }
                return Err(invalid_list("PlfLfo is present while PlfLst is absent"));
            },
        };
        let definitions = parse_definitions(
            document.table_stream(),
            definition_location.offset,
            definition_location.length,
            limits,
        )?;
        let ghost mut os_spec: Seq<OverrideSpec> = seq![];
        let overrides = match override_location {
            Some(location) => {
                let bytes = checked_slice(document.table_stream(), location.offset, location.length, "PlfLfo")?;
                let v = parse_overrides(bytes, document.fib().stories.main, limits)?;
                proof {
                    os_spec = overrides_outcome(bytes@, document.spec_fib().stories.main, limits)->Ok_0;
                }
                v
            },
            None => Vec::new(),
        };
        let ghost ds = definitions_outcome(
            document.spec_table(),
            definition_location.offset as int,
            definition_location.length as int,
            limits,
        )->Ok_0;
        assert(overrides_match(overrides@, os_spec));
        assert(overrides_expected(*document, limits) == Ok::<Seq<OverrideSpec>, ErrorKind>(os_spec));
        let ghost dl = document.spec_fib().locations.spec_get(INDEX_PLF_LST);
        let mut i: usize = 0;
        while i < overrides.len()
            invariant
                overrides_expected(*document, limits) == Ok::<Seq<OverrideSpec>, ErrorKind>(os_spec),
                dl == document.spec_fib().locations.spec_get(INDEX_PLF_LST),
                dl is Some && dl.unwrap().length != 0,
                definitions_outcome(document.spec_table(), dl.unwrap().offset as int, dl.unwrap().length as int, limits)
                    == Ok::<Seq<DefinitionSpec>, ErrorKind>(ds),
                definitions_match(definitions@, ds),
                overrides_match(overrides@, os_spec),
                i <= overrides@.len(),
                forall|k: int| 0 <= k < i ==> has_definition(ds, #[trigger] os_spec[k].lsid),
            decreases overrides@.len() - i,
        {
            let lsid = overrides[i].lsid;
            assert(overrides@[i as int].matches(os_spec[i as int]));
            let mut found = false;
            let mut j: usize = 0;
            while j < definitions.len()
                invariant
                    definitions_match(definitions@, ds),
                    j <= definitions@.len(),
                    found ==> has_definition(ds, lsid),
                    !found ==> forall|q: int| 0 <= q < j ==> (#[trigger] definitions@[q]).lsid != lsid,
                decreases definitions@.len() - j,
            {
                if definitions[j].lsid == lsid {
                    assert(definitions@[j as int].matches(ds[j as int]));
                    found = true;
                }
                j = j + 1;
            }
            if !found {
                proof {
                    assert forall|q: int| 0 <= q < ds.len() implies (#[trigger] ds[q]).lsid != lsid by {
                        assert(definitions@[q].matches(ds[q]));
                    }
                    assert(!has_definition(ds, os_spec[i as int].lsid));
                }
                return Err(invalid_list("LFO references a missing LSTF"));
            }
            i = i + 1;
        }
        Ok(ListCollection { definitions, overrides })
    }

    /// Source definitions in `PlfLst` order.
    pub fn definitions(&self) -> (res: &[ListDefinition])
        ensures
            res@ == self.spec_definitions(),
    {
        self.definitions.as_slice()
    }

    /// Source instances in 1-based `ilfo` order.
    pub fn overrides(&self) -> (res: &[ListOverride])
        ensures
            res@ == self.spec_overrides(),
    {
        self.overrides.as_slice()
    }

    /// The first definition with identifier `lsid`.
    pub fn definition(&self, lsid: i32) -> (res: Option<&ListDefinition>)
        ensures
            match definition_from(self.spec_definitions(), lsid, 0) {
                Some(i) => res == Some(&self.spec_definitions()[i]),
                None => res is None,
            },
    {
        let ghost defs = self.definitions@;
        let mut i: usize = 0;
        while i < self.definitions.len()
            invariant
                defs == self.definitions@,
                i <= defs.len(),
                definition_from(defs, lsid, 0) == definition_from(defs, lsid, i as int),
            decreases defs.len() - i,
        {
            if self.definitions[i].lsid == lsid {
                return Some(&self.definitions[i]);
            }
            i = i + 1;
        }
        None
    }

    /// Resolve paragraph `ilfo`/`ilvl` values to a validated list instance.
    pub fn resolve_paragraph(&self, cp: u32, ilfo: i16, ilvl: u8) -> (res: Result<Option<ResolvedListParagraph>>)
        ensures
            match resolve_outcome(self.spec_definitions(), self.spec_overrides(), cp, ilfo, ilvl) {
                Ok(r) => res == Ok::<Option<ResolvedListParagraph>, DocError>(r),
                Err(e) => res is Err && res->Err_0.kind() == e,
            },
    {
        if ilfo == 0 || ilfo == -2047 {
            return Ok(None);
        }
        let preserve_indents = ilfo < 0;
        let absolute: u32 = if ilfo < 0 {
            (-(ilfo as i32)) as u32
        } else {
            ilfo as u32
        };
        if absolute > 0x07FE {
            return Err(invalid_list("paragraph has an invalid ilfo"));
        }
        if ilvl > 8 {
            return Err(invalid_list("paragraph has an invalid ilvl"));
        }
        if absolute as usize - 1 >= self.overrides.len() {
            return Err(invalid_list("paragraph references a missing LFO"));
        }
        let list = &self.overrides[absolute as usize - 1];
        let definition = match self.definition(list.lsid) {
            Some(d) => d,
            None => {
                return Err(invalid_list("LFO references a missing LSTF"));
            },
        };
        if ilvl as usize >= definition.levels.len() {
            return Err(invalid_list("paragraph selects a level the list does not define"));
        }
        Ok(Some(ResolvedListParagraph { cp, num_id: absolute, level: ilvl, preserve_indents }))
    }
}

/// The marker text of a level: the first `k` units of `text`, where a
/// placeholder unit naming a level becomes `%` and the 1-based level digit,
/// a bullet keeps the low twelve bits of its unit, and any other unit is the
/// character it encodes (U+FFFD for a surrogate).
pub open spec fn marker_chars(used: Seq<u8>, bullet: bool, text: Seq<u16>, k: int) -> Seq<char>
    decreases k,
{
    if k <= 0 {
        seq![]
    } else {
        let i = k - 1;
        let unit = text[i];
        let key: int = if i + 1 > 255 {
            255
        } else {
            i + 1
        };
        let piece = if used.contains(key as u8) && unit < 9 {
            seq!['%', scalar_char((0x31 + unit) as u32)]
        } else if bullet {
            seq![scalar_char((unit % 0x1000) as u32)]
        } else {
            seq![scalar_char(unit as u32)]
        };
        marker_chars(used, bullet, text, k - 1) + piece
    }
}

/// The projection marker of a resolved list paragraph.
pub open spec fn list_marker_text(cp: u32, num_id: u32, level: u8) -> Seq<char> {
    "\u{F0000}DOCS_VIEWER_WASM_LIST_"@ + hex_digits(cp as int, 8) + "_"@ + hex_digits(num_id as int, 8) + "_"@ + hex_digits(
        level as int,
        2,
    ) + "\u{F0001}"@
}

/// Whether the first `n` entries of `values` contain `value`.
fn prefix_contains(values: &[u8; 9], n: usize, value: u8) -> (res: bool)
    requires
        n <= 9,
    ensures
        res == values@.take(n as int).contains(value),
{
    let mut j: usize = 0;
    while j < n
        invariant
            n <= 9,
            values@.len() == 9,
            j <= n,
            forall|i: int| 0 <= i < j ==> values@[i] != value,
        decreases n - j,
    {
        if values[j] == value {
            assert(values@.take(n as int)[j as int] == value);
            return true;
        }
        j = j + 1;
    }
    proof {
        if values@.take(n as int).contains(value) {
            let i = choose|i: int| 0 <= i < n && values@.take(n as int)[i] == value;
            assert(values@[i] == value);
        }
    }
    false
}

/// Appends the character of `v`, or U+FFFD when `v` is no scalar value.
fn push_scalar(out: &mut String, v: u32)
    ensures
        final(out)@ == old(out)@.push(scalar_char(v)),
{
    match char_from_u32(v) {
        Some(c) => push_char(out, c),
        None => push_char(out, '\u{FFFD}'),
    }
}

impl ListLevel {
    /// Whether the level is a bullet rather than a numeric sequence.
    pub fn is_bullet(&self) -> (res: bool)
        ensures
            res == (self.number_format == 0x17),
    {
        self.number_format == 0x17
    }

    /// Convert Word placeholder units into OOXML `%1`…`%9` tokens.
    pub fn ooxml_level_text(&self) -> (res: String)
        ensures
            res@ == marker_chars(
                used_placeholders(self.placeholder_offsets@),
                self.number_format == 0x17,
                self.level_text@,
                self.level_text@.len() as int,
            ),
    {
        let n = used_count(&self.placeholder_offsets);
        let ghost used = used_placeholders(self.placeholder_offsets@);
        let bullet = self.is_bullet();
        let mut result = String::new();
        let mut k: usize = 0;
        while k < self.level_text.len()
            invariant
                n == first_zero(self.placeholder_offsets@, 0),
                n <= 9,
                used == self.placeholder_offsets@.take(n as int),
                bullet == (self.number_format == 0x17),
                k <= self.level_text@.len(),
                result@ == marker_chars(used, bullet, self.level_text@, k as int),
            decreases self.level_text@.len() - k,
        {
            let unit = self.level_text[k];
            let key: u8 = if k + 1 > 255 {
                255
            } else {
                (k + 1) as u8
            };
            let placeholder = prefix_contains(&self.placeholder_offsets, n, key);
            if placeholder && unit < 9 {
                push_char(&mut result, '%');
                push_scalar(&mut result, 0x31 + unit as u32);
            } else if bullet {
                push_scalar(&mut result, (unit % 0x1000) as u32);
            } else {
                push_scalar(&mut result, unit as u32);
            }
            proof {
                let key_int: int = if k + 1 > 255 {
                    255
                } else {
                    k + 1
                };
                assert(key == key_int as u8);
                let m = marker_chars(used, bullet, self.level_text@, k as int + 1);
                assert(m == marker_chars(used, bullet, self.level_text@, k as int) + (if used.contains(key)
                    && unit < 9 {
                    seq!['%', scalar_char((0x31 + unit) as u32)]
                } else if bullet {
                    seq![scalar_char((unit % 0x1000) as u32)]
                } else {
                    seq![scalar_char(unit as u32)]
                }));
                assert(result@ =~= m);
            }
            k = k + 1;
        }
        result
    }
}

impl ResolvedListParagraph {
    /// Private-use marker replaced by the bridge with an OOXML `numPr`.
    pub fn projection_marker(self) -> (res: String)
        ensures
            res@ == list_marker_text(self.cp, self.num_id, self.level),
    {
        let mut out = String::from_str("\u{F0000}DOCS_VIEWER_WASM_LIST_");
        append_hex(&mut out, self.cp, 8);
        out.append("_");
        append_hex(&mut out, self.num_id, 8);
        out.append("_");
        append_hex(&mut out, self.level as u32, 2);
        out.append("\u{F0001}");
        out
    }
}

/// No two definitions of a parsed `PlfLst` share an identifier, and none
/// uses the reserved identifier `-1`.
pub proof fn lemma_definition_ids_unique(table: Seq<u8>, off: int, len: int, limits: DocLimits)
    requires
        definitions_outcome(table, off, len, limits) is Ok,
    ensures
        ({
            let ds = definitions_outcome(table, off, len, limits)->Ok_0;
            &&& forall|i: int| 0 <= i < ds.len() ==> (#[trigger] ds[i]).lsid != -1
            &&& forall|i: int, j: int| 0 <= i < j < ds.len() ==> (#[trigger] ds[i]).lsid != (#[trigger] ds[j]).lsid
        }),
{
    let h = table.subrange(off, off + len);
    let ds = definitions_outcome(table, off, len, limits)->Ok_0;
    assert forall|i: int, j: int| 0 <= i < j < ds.len() implies (#[trigger] ds[i]).lsid != (#[trigger] ds[j]).lsid by {
        assert(lstf_ok(h, j));
    }
    assert forall|i: int| 0 <= i < ds.len() implies (#[trigger] ds[i]).lsid != -1 by {
        assert(lstf_ok(h, i));
    }
}

} // verus!

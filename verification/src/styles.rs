//! Bounded STSH/STD/UPX parsing and cycle-safe style inheritance.

use vstd::prelude::*;

use crate::binary::{checked_slice, le_u16, read_u16_le};
use crate::error::{DocError, ErrorKind, Outcome, Result, first_failure, lemma_first_failure_persists, message};
use crate::fib::{Fib, INDEX_STSHF};
use crate::limits::DocLimits;
use crate::properties::{
    CharacterPropertyDelta, ParagraphPropertyDelta, apply_character_sprms, apply_paragraph_sprms,
    character_fields_match, character_sprm_ok, paragraph_fields_match, paragraph_sprm_ok,
};
use crate::piece_table::{same_sprm, same_sprms};
use crate::sprm::{PropertyGroup, Sprm, decode_grpprl, grpprl_frames, sprms_are_frames};
use crate::text::{decode_utf16, utf16_strict, valid_utf16};

verus! {

/// Size of the fixed `Stshif` part of the stylesheet header.
pub const STSHIF_SIZE: usize = 18;

/// `istdBase` value meaning "no base style".
pub const NO_BASE_STYLE: u16 = 0x0FFF;

/// Style type stored in `StdfBase.stk`.
#[derive(Debug, Clone, Copy, PartialEq, Eq, Structural)]
pub enum StyleKind {
    Paragraph,
    Character,
    Table,
    Numbering,
}

/// Default font slots from `STSHI.Stshif`.
#[derive(Debug, Clone, Copy, PartialEq, Eq, Structural)]
pub struct DefaultStyleFonts {
    pub ascii: i16,
    pub east_asian: i16,
    pub other: i16,
    pub bidi: Option<i16>,
}

/// One non-empty style definition in the STSH array.
#[derive(Debug, Clone, PartialEq, Eq)]
pub struct StyleDefinition {
    pub index: u16,
    /// Invariant built-in style identifier, or 0x0FFE for user-defined styles.
    pub invariant_id: u16,
    pub kind: StyleKind,
    pub base_style: Option<u16>,
    pub next_style: u16,
    pub linked_style: Option<u16>,
    /// Primary name followed by aliases, separated by commas as stored.
    pub name: String,
    /// Redundant `UpxPapx.istd` value when that optional field is present.
    /// Some real Word-produced files store zero here; it is retained rather
    /// than trusted over the containing STSH array index.
    pub paragraph_upx_style_index: Option<u16>,
    /// Paragraph differences defined directly by this style.
    pub paragraph_sprms: Vec<Sprm>,
    /// Character differences defined directly by this style.
    pub character_sprms: Vec<Sprm>,
    /// Table differences retained for the table reconstruction stage.
    pub table_sprms: Vec<Sprm>,
    /// Revision-marking UPX records retained but not applied.
    pub revision_upx: Vec<Vec<u8>>,
}

/// Inherited property arrays in base-to-derived application order.
#[derive(Debug, Clone, PartialEq, Eq)]
pub struct InheritedStyleProperties {
    pub paragraph_sprms: Vec<Sprm>,
    pub character_sprms: Vec<Sprm>,
    pub table_sprms: Vec<Sprm>,
    pub paragraph: ParagraphPropertyDelta,
    pub character: CharacterPropertyDelta,
}

// ---- One STD.

/// The style kind of an `stk` value of 1 through 4.
pub open spec fn kind_of(stk: u16) -> StyleKind {
    if stk == 1 {
        StyleKind::Paragraph
    } else if stk == 2 {
        StyleKind::Character
    } else if stk == 3 {
        StyleKind::Table
    } else {
        StyleKind::Numbering
    }
}

/// Whether `count` UPX records suit a style of `kind`.
pub open spec fn upx_count_ok(kind: StyleKind, count: int) -> bool {
    match kind {
        StyleKind::Paragraph => count == 2 || count == 3,
        StyleKind::Character => count == 1 || count == 2,
        StyleKind::Table => count == 3,
        StyleKind::Numbering => count == 1,
    }
}

/// The UTF-16 units of the name of STD bytes `d` with a base of `stdf` bytes.
pub open spec fn name_units(d: Seq<u8>, stdf: int) -> Seq<u16> {
    Seq::new(le_u16(d, stdf) as nat, |i: int| le_u16(d, stdf + 2 + 2 * i))
}

/// Offset just past the name's terminator.
pub open spec fn name_end(d: Seq<u8>, stdf: int) -> int {
    stdf + 2 + 2 * le_u16(d, stdf) + 2
}

/// Whether name units `u` form a non-empty, comma-separated list without empty entries.
pub open spec fn name_entries_ok(u: Seq<u16>) -> bool {
    &&& u.len() > 0
    &&& u[0] != 0x2C
    &&& u[u.len() - 1] != 0x2C
    &&& forall|i: int| 0 <= i < u.len() - 1 ==> !(#[trigger] u[i] == 0x2C && u[i + 1] == 0x2C)
}

/// Whether the name of STD bytes `d` is well formed.
pub open spec fn name_ok(d: Seq<u8>, stdf: int) -> bool {
    &&& stdf + 2 <= d.len()
    &&& name_end(d, stdf) <= d.len()
    &&& le_u16(d, name_end(d, stdf) - 2) == 0
    &&& valid_utf16(name_units(d, stdf))
    &&& name_entries_ok(name_units(d, stdf))
}

/// The UPX records of `d` from `offset`: `count` length-prefixed, padded
/// records, or `None` where they overrun `d` or leave trailing bytes.
pub open spec fn upx_groups(d: Seq<u8>, offset: int, count: int) -> Option<Seq<Seq<u8>>>
    decreases count,
{
    if count <= 0 {
        if offset == d.len() {
            Some(seq![])
        } else {
            None
        }
    } else if offset + 2 > d.len() {
        None
    } else {
        let length = le_u16(d, offset) as int;
        let end = offset + 2 + length;
        if end > d.len() {
            None
        } else {
            match upx_groups(d, end + length % 2, count - 1) {
                None => None,
                Some(rest) => Some(seq![d.subrange(offset + 2, end)] + rest),
            }
        }
    }
}

/// Whether `g` frames into SPRMs all of `group`.
pub open spec fn group_ok(g: Seq<u8>, group: PropertyGroup) -> bool {
    &&& grpprl_frames(g, 0) is Some
    &&& forall|i: int|
        0 <= i < grpprl_frames(g, 0).unwrap().len() ==> crate::sprm::sprm_group(
            (#[trigger] grpprl_frames(g, 0).unwrap()[i]).0,
        ) == Some(group)
}

/// Whether every byte of `g` is zero.
pub open spec fn all_zero(g: Seq<u8>) -> bool {
    forall|i: int| 0 <= i < g.len() ==> #[trigger] g[i] == 0
}

/// The paragraph `grpprl` of a `UpxPapx`: empty where it is only zero padding.
pub open spec fn papx_grpprl(upx: Seq<u8>) -> Seq<u8> {
    if all_zero(upx.subrange(2, upx.len() as int)) {
        seq![]
    } else {
        upx.subrange(2, upx.len() as int)
    }
}

/// Whether a `UpxPapx` is valid.
pub open spec fn papx_ok(upx: Seq<u8>) -> bool {
    upx.len() >= 2 && group_ok(papx_grpprl(upx), PropertyGroup::Paragraph)
}

/// The paragraph `grpprl` of a numbering style's UPX.
pub open spec fn numbering_grpprl(g: Seq<u8>, index: u16) -> Seq<u8> {
    if g.len() == 2 {
        seq![]
    } else if g.len() > 2 && le_u16(g, 0) == index {
        g.subrange(2, g.len() as int)
    } else {
        g
    }
}

/// The UPX records of STD bytes `d`.
pub open spec fn std_groups(d: Seq<u8>, stdf: int) -> Option<Seq<Seq<u8>>> {
    upx_groups(d, name_end(d, stdf), (le_u16(d, 4) & 0x000F) as int)
}

/// Whether STD bytes `d` of style `index` with a base of `stdf` bytes are valid.
pub open spec fn style_ok(index: u16, d: Seq<u8>, stdf: int) -> bool {
    let stk = le_u16(d, 2) & 0x000F;
    let kind = kind_of(stk);
    let groups = std_groups(d, stdf);
    &&& d.len() >= stdf
    &&& le_u16(d, 6) == d.len()
    &&& 1 <= stk <= 4
    &&& upx_count_ok(kind, (le_u16(d, 4) & 0x000F) as int)
    &&& name_ok(d, stdf)
    &&& groups is Some
    &&& match kind {
        StyleKind::Paragraph => papx_ok(groups.unwrap()[0]) && group_ok(groups.unwrap()[1], PropertyGroup::Character),
        StyleKind::Character => group_ok(groups.unwrap()[0], PropertyGroup::Character),
        StyleKind::Table => group_ok(groups.unwrap()[0], PropertyGroup::Table) && papx_ok(groups.unwrap()[1])
            && group_ok(groups.unwrap()[2], PropertyGroup::Character),
        StyleKind::Numbering => group_ok(numbering_grpprl(groups.unwrap()[0], index), PropertyGroup::Paragraph),
    }
}

/// Whether `sprms` are the SPRMs framed from `g`.
pub open spec fn sprms_of(sprms: Seq<Sprm>, g: Seq<u8>) -> bool {
    sprms_are_frames(sprms, grpprl_frames(g, 0).unwrap())
}

/// Whether `s` is the definition decoded from valid STD bytes `d` of style `index`.
pub open spec fn style_decoded(s: StyleDefinition, index: u16, d: Seq<u8>, stdf: int) -> bool {
    let w1 = le_u16(d, 2);
    let w2 = le_u16(d, 4);
    let kind = kind_of(w1 & 0x000F);
    let groups = std_groups(d, stdf).unwrap();
    let linked = le_u16(d, 10) & 0x0FFF;
    &&& s.index == index
    &&& s.invariant_id == le_u16(d, 0) & 0x0FFF
    &&& s.kind == kind
    &&& s.base_style == (if (w1 >> 4u16) != NO_BASE_STYLE {
        Some(w1 >> 4u16)
    } else {
        None
    })
    &&& s.next_style == w2 >> 4u16
    &&& s.linked_style == (if stdf == 18 && linked != 0 {
        Some(linked)
    } else {
        None
    })
    &&& s.name@ == utf16_strict(name_units(d, stdf)).unwrap()
    &&& match kind {
        StyleKind::Paragraph => {
            &&& s.paragraph_upx_style_index == Some(le_u16(groups[0], 0))
            &&& sprms_of(s.paragraph_sprms@, papx_grpprl(groups[0]))
            &&& sprms_of(s.character_sprms@, groups[1])
            &&& s.table_sprms@.len() == 0
            &&& s.revision_upx@.map_values(|v: Vec<u8>| v@) == groups.skip(2)
        },
        StyleKind::Character => {
            &&& s.paragraph_upx_style_index is None
            &&& s.paragraph_sprms@.len() == 0
            &&& sprms_of(s.character_sprms@, groups[0])
            &&& s.table_sprms@.len() == 0
            &&& s.revision_upx@.map_values(|v: Vec<u8>| v@) == groups.skip(1)
        },
        StyleKind::Table => {
            &&& s.paragraph_upx_style_index == Some(le_u16(groups[1], 0))
            &&& sprms_of(s.table_sprms@, groups[0])
            &&& sprms_of(s.paragraph_sprms@, papx_grpprl(groups[1]))
            &&& sprms_of(s.character_sprms@, groups[2])
            &&& s.revision_upx@.len() == 0
        },
        StyleKind::Numbering => {
            &&& s.paragraph_upx_style_index is None
            &&& sprms_of(s.paragraph_sprms@, numbering_grpprl(groups[0], index))
            &&& s.character_sprms@.len() == 0
            &&& s.table_sprms@.len() == 0
            &&& s.revision_upx@.len() == 0
        },
    }
}

/// The links `(kind, base, next, linked)` of valid STD bytes `d`.
pub open spec fn std_links(d: Seq<u8>, stdf: int) -> StyleLinks {
    let w1 = le_u16(d, 2);
    let linked = le_u16(d, 10) & 0x0FFF;
    (
        kind_of(w1 & 0x000F),
        if (w1 >> 4u16) != NO_BASE_STYLE {
            Some(w1 >> 4u16)
        } else {
            None
        },
        le_u16(d, 4) >> 4u16,
        if stdf == 18 && linked != 0 {
            Some(linked)
        } else {
            None
        },
    )
}

/// A style's kind, base style, next style and linked style.
pub type StyleLinks = (StyleKind, Option<u16>, u16, Option<u16>);

/// The links of a definition.
pub open spec fn links_of(s: StyleDefinition) -> StyleLinks {
    (s.kind, s.base_style, s.next_style, s.linked_style)
}

/// A style's links, or `None` for an empty slot.
pub open spec fn slot_links(s: Option<StyleDefinition>) -> Option<StyleLinks> {
    match s {
        Some(d) => Some(links_of(d)),
        None => None,
    }
}

// ---- The STD array.

/// Offset of `LPStd` entry `k` of the array starting at `start`.
pub open spec fn std_offset(data: Seq<u8>, start: int, k: int) -> int
    decreases k,
{
    if k <= 0 {
        start
    } else {
        let o = std_offset(data, start, k - 1);
        let cb = le_u16(data, o) as i16 as int;
        o + 2 + if cb > 0 {
            cb + cb % 2
        } else {
            0
        }
    }
}

/// `cbStd` of entry `k`.
pub open spec fn std_size(data: Seq<u8>, start: int, k: int) -> int {
    le_u16(data, std_offset(data, start, k)) as i16 as int
}

/// The STD bytes of entry `k`.
pub open spec fn std_bytes(data: Seq<u8>, start: int, k: int) -> Seq<u8> {
    let o = std_offset(data, start, k) + 2;
    data.subrange(o, o + std_size(data, start, k))
}

/// Whether entry `k` is valid: in bounds, non-negative, and a valid STD where not empty.
pub open spec fn std_entry_ok(data: Seq<u8>, start: int, k: int, stdf: int) -> bool {
    let o = std_offset(data, start, k);
    let cb = std_size(data, start, k);
    &&& o + 2 <= data.len()
    &&& cb >= 0
    &&& cb > 0 ==> o + 2 + cb + cb % 2 <= data.len() && style_ok(k as u16, std_bytes(data, start, k), stdf)
}

/// Whether `count` entries from `start` are valid and end exactly at the end of `data`.
pub open spec fn std_array_ok(data: Seq<u8>, start: int, count: int, stdf: int) -> bool {
    &&& forall|k: int| 0 <= k < count ==> #[trigger] std_entry_ok(data, start, k, stdf)
    &&& std_offset(data, start, count) == data.len()
}

/// The links of every slot of a valid STD array.
pub open spec fn array_links(data: Seq<u8>, start: int, count: int, stdf: int) -> Seq<Option<StyleLinks>> {
    Seq::new(
        count as nat,
        |k: int|
            if std_size(data, start, k) == 0 {
                None
            } else {
                Some(std_links(std_bytes(data, start, k), stdf))
            },
    )
}

// ---- Inheritance.

/// Walks base links from `current`, after the styles `visited`: the styles
/// reached in derived-to-base order, or the failure kind (depth over `limit`,
/// a cycle, or an empty style).
pub open spec fn chain_from(
    links: Seq<Option<StyleLinks>>,
    current: Option<u16>,
    visited: Seq<u16>,
    limit: int,
) -> Outcome<Seq<u16>>
    decreases limit - visited.len(),
{
    match current {
        None => Ok(visited),
        Some(i) => if visited.len() >= limit {
            Err(ErrorKind::ResourceLimit)
        } else if visited.contains(i) {
            Err(ErrorKind::InvalidStyle)
        } else if i >= links.len() || links[i as int] is None {
            Err(ErrorKind::InvalidStyle)
        } else {
            chain_from(links, links[i as int].unwrap().1, visited.push(i), limit)
        },
    }
}

/// A failed walk fails on depth or as an invalid style.
pub proof fn lemma_chain_error_kinds(links: Seq<Option<StyleLinks>>, current: Option<u16>, visited: Seq<u16>, limit: int)
    ensures
        chain_from(links, current, visited, limit) matches Err(e) ==> e == ErrorKind::ResourceLimit || e
            == ErrorKind::InvalidStyle,
    decreases limit - visited.len(),
{
    match current {
        None => {},
        Some(i) => {
            if visited.len() < limit && !visited.contains(i) && i < links.len() && links[i as int] is Some {
                lemma_chain_error_kinds(links, links[i as int].unwrap().1, visited.push(i), limit);
            }
        },
    }
}

/// Whether `i` names a non-empty style.
pub open spec fn present(links: Seq<Option<StyleLinks>>, i: u16) -> bool {
    i < links.len() && links[i as int] is Some
}

/// Why the references of style `k` are invalid, if they are.
pub open spec fn link_check(links: Seq<Option<StyleLinks>>, k: int, limit: int) -> Option<ErrorKind> {
    match links[k] {
        None => None,
        Some(l) => {
            let kind = l.0;
            let base = l.1;
            let next = l.2;
            let linked = l.3;
            if base is Some && !present(links, base.unwrap()) {
                Some(ErrorKind::InvalidStyle)
            } else if base is Some && links[base.unwrap() as int].unwrap().0 != kind {
                Some(ErrorKind::InvalidStyle)
            } else if !present(links, next) {
                Some(ErrorKind::InvalidStyle)
            } else if linked is Some && !present(links, linked.unwrap()) {
                Some(ErrorKind::InvalidStyle)
            } else {
                match chain_from(links, Some(k as u16), seq![], limit) {
                    Err(e) => Some(e),
                    Ok(_) => None,
                }
            }
        },
    }
}

/// The reference checks of every style.
pub open spec fn link_checks(links: Seq<Option<StyleLinks>>, limit: int) -> Seq<Option<ErrorKind>> {
    Seq::new(links.len(), |k: int| link_check(links, k, limit))
}

// ---- The stylesheet.

/// The header of STSH bytes `data`: `(style count, STD base size, first STD offset)`,
/// or the failure kind.
pub open spec fn stsh_header(data: Seq<u8>, limits: DocLimits) -> Outcome<(int, int, int)> {
    let cb = le_u16(data, 0) as int;
    let count = le_u16(data, 2) as int;
    let stdf = le_u16(data, 4) as int;
    if data.len() < 2 || cb < STSHIF_SIZE || 2 + cb > data.len() {
        Err(ErrorKind::InvalidStyle)
    } else if count < 15 || count >= 0x0FFE {
        Err(ErrorKind::InvalidStyle)
    } else if count > limits.max_styles {
        Err(ErrorKind::ResourceLimit)
    } else if stdf != 10 && stdf != 18 {
        Err(ErrorKind::InvalidStyle)
    } else {
        Ok((count, stdf, 2 + cb))
    }
}

/// The default fonts of STSH bytes with a header of `cb` bytes.
pub open spec fn stsh_fonts(data: Seq<u8>, cb: int) -> DefaultStyleFonts {
    DefaultStyleFonts {
        ascii: le_u16(data, 14) as i16,
        east_asian: le_u16(data, 16) as i16,
        other: le_u16(data, 18) as i16,
        bidi: if cb >= 20 {
            Some(le_u16(data, 20) as i16)
        } else {
            None
        },
    }
}

/// Whether slot `k` is empty exactly where its STD is, and otherwise decoded from it.
pub open spec fn slot_decoded(slot: Option<StyleDefinition>, data: Seq<u8>, start: int, k: int, stdf: int) -> bool {
    match slot {
        None => std_size(data, start, k) == 0,
        Some(s) => std_size(data, start, k) > 0 && style_decoded(s, k as u16, std_bytes(data, start, k), stdf),
    }
}

/// Whether `t` is the stylesheet decoded from valid STSH bytes `data` with header `h`.
pub open spec fn sheet_decoded(
    t: StyleSheet,
    data: Seq<u8>,
    h: (int, int, int),
    links: Seq<Option<StyleLinks>>,
    limits: DocLimits,
) -> bool {
    &&& t.spec_styles().len() == h.0
    &&& t.spec_links() == links
    &&& t.spec_fonts() == stsh_fonts(data, h.2 - 2)
    &&& t.spec_depth() == limits.max_style_depth
    &&& forall|k: int| 0 <= k < h.0 ==> #[trigger] slot_decoded(t.spec_styles()[k], data, h.2, k, h.1)
}

/// What `StyleSheet::parse_bytes` gives for `data`.
pub open spec fn stylesheet_result(data: Seq<u8>, limits: DocLimits, res: Result<StyleSheet>) -> bool {
    match stsh_header(data, limits) {
        Err(e) => res is Err && res->Err_0.kind() == e,
        Ok(h) => {
            let count = h.0;
            let stdf = h.1;
            let start = h.2;
            if !std_array_ok(data, start, count, stdf) {
                res is Err && res->Err_0.kind() == ErrorKind::InvalidStyle
            } else {
                let links = array_links(data, start, count, stdf);
                match first_failure(link_checks(links, limits.max_style_depth as int), count) {
                    Some(e) => res is Err && res->Err_0.kind() == e,
                    None => res matches Ok(t) && sheet_decoded(t, data, h, links, limits),
                }
            }
        },
    }
}

/// What `StyleSheet::parse` gives for the STSH that `fib` locates in `table`.
pub open spec fn stsh_result(fib: Fib, table: Seq<u8>, limits: DocLimits, res: Result<StyleSheet>) -> bool {
    let l = fib.locations.spec_get(INDEX_STSHF);
    if l is None || l.unwrap().length == 0 {
        res is Err && res->Err_0.kind() == ErrorKind::InvalidStyle
    } else if l.unwrap().offset + l.unwrap().length > table.len() {
        res is Err && res->Err_0.kind() == ErrorKind::OutOfBounds
    } else {
        stylesheet_result(table.subrange(l.unwrap().offset as int, l.unwrap().offset + l.unwrap().length), limits, res)
    }
}

/// Parsed document stylesheet, including empty fixed-index entries.
#[derive(Debug, Clone, PartialEq, Eq)]
pub struct StyleSheet {
    styles: Vec<Option<StyleDefinition>>,
    default_fonts: DefaultStyleFonts,
    max_inheritance_depth: usize,
}

/// The SPRMs of one family along an inheritance order.
pub open spec fn chain_sprms(styles: Seq<Option<StyleDefinition>>, order: Seq<u16>, family: int) -> Seq<Sprm>
    decreases order.len(),
{
    if order.len() == 0 {
        seq![]
    } else {
        let s = styles[order[0] as int].unwrap();
        let own = if family == 0 {
            s.paragraph_sprms@
        } else if family == 1 {
            s.character_sprms@
        } else {
            s.table_sprms@
        };
        own + chain_sprms(styles, order.drop_first(), family)
    }
}

impl StyleSheet {
    /// Every slot, empty or not.
    pub closed spec fn spec_styles(&self) -> Seq<Option<StyleDefinition>> {
        self.styles@
    }

    /// The links of every slot.
    pub closed spec fn spec_links(&self) -> Seq<Option<StyleLinks>> {
        self.styles@.map_values(|s: Option<StyleDefinition>| slot_links(s))
    }

    /// The default fonts.
    pub closed spec fn spec_fonts(&self) -> DefaultStyleFonts {
        self.default_fonts
    }

    /// The inheritance depth budget.
    pub closed spec fn spec_depth(&self) -> usize {
        self.max_inheritance_depth
    }

    /// Parses the FIB-referenced STSH structure.
    pub fn parse(fib: &Fib, table_stream: &[u8], limits: DocLimits) -> (res: Result<Self>)
        ensures
            stsh_result(*fib, table_stream@, limits, res),
    {
        let location = match fib.locations.stylesheet() {
            Some(l) => if l.is_empty() {
                return Err(DocError::InvalidStyle(message("STSH location is empty")));
            } else {
                l
            },
            None => {
                return Err(DocError::InvalidStyle(message("STSH location is empty")));
            },
        };
        let data = checked_slice(table_stream, location.offset, location.length, "STSH")?;
        Self::parse_bytes(data, limits)
    }

    /// Parses STSH bytes.
    #[verifier::rlimit(60)]
    pub fn parse_bytes(data: &[u8], limits: DocLimits) -> (res: Result<Self>)
        ensures
            stylesheet_result(data@, limits, res),
    {
        let len = data.len();
        if len < 2 {
            return Err(DocError::InvalidStyle(message("LPStshi.cbStshi is truncated")));
        }
        let cb_stshi = read_u16_le(data, 0) as usize;
        if cb_stshi < STSHIF_SIZE {
            return Err(DocError::InvalidStyle(message("STSHI is shorter than Stshif")));
        }
        if 2 + cb_stshi > len {
            return Err(DocError::InvalidStyle(message("STSHI extends beyond the STSH")));
        }
        let style_count = read_u16_le(data, 2) as usize;
        if style_count < 15 || style_count >= 0x0FFE {
            return Err(DocError::InvalidStyle(message("Stshif.cstd is outside 15..0x0FFE")));
        }
        if style_count > limits.max_styles {
            return Err(
                DocError::ResourceLimit {
                    resource: "style",
                    actual: style_count as u64,
                    limit: limits.max_styles as u64,
                },
            );
        }
        let stdf_size = read_u16_le(data, 4) as usize;
        if stdf_size != 10 && stdf_size != 18 {
            return Err(DocError::InvalidStyle(message("cbSTDBaseInFile must be 10 or 18")));
        }
        let default_fonts = DefaultStyleFonts {
            ascii: read_u16_le(data, 14) as i16,
            east_asian: read_u16_le(data, 16) as i16,
            other: read_u16_le(data, 18) as i16,
            bidi: if cb_stshi >= 20 {
                Some(read_u16_le(data, 20) as i16)
            } else {
                None
            },
        };
        let start = 2 + cb_stshi;
        let ghost d = data@;
        assert(stsh_header(d, limits) == Outcome::<(int, int, int)>::Ok((style_count as int, stdf_size as int, start as int)));
        let mut offset = start;
        let mut styles: Vec<Option<StyleDefinition>> = Vec::new();
        let mut index: usize = 0;
        while index < style_count
            invariant
                d == data@,
                stsh_header(d, limits) == Outcome::<(int, int, int)>::Ok((style_count as int, stdf_size as int, start as int)),
                len == d.len(),
                start <= len,
                style_count < 0x0FFE,
                stdf_size == 10 || stdf_size == 18,
                index <= style_count,
                offset == std_offset(d, start as int, index as int),
                offset <= len,
                forall|k: int| 0 <= k < index ==> #[trigger] std_entry_ok(d, start as int, k, stdf_size as int),
                styles@.len() == index,
                forall|k: int|
                    0 <= k < index ==> #[trigger] slot_decoded(styles@[k], d, start as int, k, stdf_size as int),
            decreases style_count - index,
        {
            if len - offset < 2 {
                assert(!std_entry_ok(d, start as int, index as int, stdf_size as int));
                return Err(DocError::InvalidStyle(message("LPStd.cbStd is truncated")));
            }
            let cb_std = read_u16_le(data, offset) as i16;
            if cb_std < 0 {
                assert(!std_entry_ok(d, start as int, index as int, stdf_size as int));
                return Err(DocError::InvalidStyle(message("style has a negative cbStd")));
            }
            let cb = cb_std as usize;
            if cb == 0 {
                styles.push(None);
                offset = offset + 2;
            } else {
                if cb > len - offset - 2 {
                    assert(!std_entry_ok(d, start as int, index as int, stdf_size as int));
                    return Err(DocError::InvalidStyle(message("style extends beyond the STSH")));
                }
                let end = offset + 2 + cb;
                let bytes = slice_range(data, offset + 2, end);
                let style = match parse_style(index as u16, bytes, stdf_size) {
                    Ok(s) => s,
                    Err(e) => {
                        assert(!std_entry_ok(d, start as int, index as int, stdf_size as int));
                        return Err(e);
                    },
                };
                if cb % 2 > len - end {
                    assert(!std_entry_ok(d, start as int, index as int, stdf_size as int));
                    return Err(DocError::InvalidStyle(message("style padding exceeds the STSH")));
                }
                styles.push(Some(style));
                offset = end + cb % 2;
            }
            proof {
                assert(std_entry_ok(d, start as int, index as int, stdf_size as int));
            }
            index = index + 1;
        }
        if offset != len {
            return Err(DocError::InvalidStyle(message("trailing bytes follow the STSH style array")));
        }
        let sheet = StyleSheet { styles, default_fonts, max_inheritance_depth: limits.max_style_depth };
        proof {
            assert(std_array_ok(d, start as int, style_count as int, stdf_size as int));
            assert forall|k: int| 0 <= k < style_count implies #[trigger] sheet.spec_links()[k] == array_links(
                d,
                start as int,
                style_count as int,
                stdf_size as int,
            )[k] by {
                assert(slot_decoded(sheet.styles@[k], d, start as int, k, stdf_size as int));
            }
            assert(sheet.spec_links() =~= array_links(d, start as int, style_count as int, stdf_size as int));
            assert forall|k: int| 0 <= k < sheet.spec_styles().len() implies (#[trigger] sheet.spec_styles()[k] matches Some(
                s,
            ) ==> s.index == k) by {
                assert(slot_decoded(sheet.styles@[k], d, start as int, k, stdf_size as int));
            }
        }
        sheet.validate_references_and_cycles()?;
        Ok(sheet)
    }

    /// Every slot, empty or not.
    pub fn styles(&self) -> (res: &[Option<StyleDefinition>])
        ensures
            res@ == self.spec_styles(),
    {
        self.styles.as_slice()
    }

    /// The default fonts.
    pub fn default_fonts(&self) -> (res: DefaultStyleFonts)
        ensures
            res == self.spec_fonts(),
    {
        self.default_fonts
    }

    /// Character font modifiers derived from source STSH default slots: one
    /// two-byte modifier per non-negative slot.
    pub fn default_character_sprms(&self) -> (res: Vec<Sprm>)
        ensures
            res@.len() == default_font_values(self.spec_fonts()).len(),
            forall|i: int|
                0 <= i < res@.len() ==> #[trigger] font_sprm_matches(res@[i], default_font_values(self.spec_fonts())[i]),
    {
        let f = self.default_fonts;
        let ghost a = font_value(0x4A4F, Some(f.ascii));
        let ghost b = font_value(0x4A50, Some(f.east_asian));
        let ghost c = font_value(0x4A51, Some(f.other));
        let ghost e = font_value(0x4A5E, f.bidi);
        let mut result: Vec<Sprm> = Vec::new();
        push_font_sprm(&mut result, 0x4A4F, Some(f.ascii));
        let ghost r1 = result@;
        push_font_sprm(&mut result, 0x4A50, Some(f.east_asian));
        let ghost r2 = result@;
        push_font_sprm(&mut result, 0x4A51, Some(f.other));
        let ghost r3 = result@;
        push_font_sprm(&mut result, 0x4A5E, f.bidi);
        proof {
            let all = a + b + c + e;
            assert(default_font_values(f) =~= all);
            assert forall|i: int| 0 <= i < result@.len() implies #[trigger] font_sprm_matches(result@[i], all[i]) by {
                if i < a.len() {
                    assert(r1[i] == r2[i] && r2[i] == r3[i] && r3[i] == result@[i]);
                    assert(font_sprm_matches(r1[0 + i], a[i]));
                } else if i < a.len() + b.len() {
                    assert(r2[i] == r3[i] && r3[i] == result@[i]);
                    assert(font_sprm_matches(r2[r1.len() + (i - a.len())], b[i - a.len()]));
                } else if i < a.len() + b.len() + c.len() {
                    assert(r3[i] == result@[i]);
                    assert(font_sprm_matches(r3[r2.len() + (i - a.len() - b.len())], c[i - a.len() - b.len()]));
                } else {
                    assert(font_sprm_matches(
                        result@[r3.len() + (i - a.len() - b.len() - c.len())],
                        e[i - a.len() - b.len() - c.len()],
                    ));
                }
            }
        }
        result
    }

    /// The style at `index`, where it is not empty.
    pub fn get(&self, index: u16) -> (res: Option<&StyleDefinition>)
        ensures
            match res {
                Some(s) => index < self.spec_styles().len() && self.spec_styles()[index as int] == Some(*s),
                None => index >= self.spec_styles().len() || self.spec_styles()[index as int] is None,
            },
            res is Some <==> present(self.spec_links(), index),
            res matches Some(s) ==> self.spec_links()[index as int].unwrap().0 == s.kind,
    {
        let i = index as usize;
        proof {
            if i < self.styles@.len() {
                assert(self.spec_links()[index as int] == slot_links(self.styles@[index as int]));
            }
        }
        if i >= self.styles.len() {
            return None;
        }
        match &self.styles[i] {
            Some(s) => Some(s),
            None => None,
        }
    }

    /// Resolves a style's base chain in base-to-derived order.
    pub fn inherited_properties(&self, index: u16) -> (res: Result<InheritedStyleProperties>)
        ensures
            match chain_from(self.spec_links(), Some(index), seq![], self.spec_depth() as int) {
                Err(e) => res is Err && res->Err_0.kind() == e,
                Ok(order) => {
                    let base_first = order.reverse();
                    let p = chain_sprms(self.spec_styles(), base_first, 0);
                    let c = chain_sprms(self.spec_styles(), base_first, 1);
                    let t = chain_sprms(self.spec_styles(), base_first, 2);
                    if !(forall|i: int| 0 <= i < p.len() ==> #[trigger] paragraph_sprm_ok(p[i])) {
                        res is Err && res->Err_0.kind() == ErrorKind::InvalidFormatting
                    } else if !(forall|i: int| 0 <= i < c.len() ==> #[trigger] character_sprm_ok(c[i])) {
                        res is Err && res->Err_0.kind() == ErrorKind::InvalidFormatting
                    } else {
                        res matches Ok(r) && same_sprms(r.paragraph_sprms@, p) && same_sprms(r.character_sprms@, c)
                            && same_sprms(r.table_sprms@, t) && paragraph_fields_match(
                            r.paragraph,
                            r.paragraph_sprms@,
                            r.paragraph_sprms@.len() as int,
                        ) && character_fields_match(r.character, r.character_sprms@, r.character_sprms@.len() as int)
                    }
                },
            },
    {
        let order = self.base_chain(index)?;
        let ghost base_first = order@.reverse();
        let mut paragraph_sprms: Vec<Sprm> = Vec::new();
        let mut character_sprms: Vec<Sprm> = Vec::new();
        let mut table_sprms: Vec<Sprm> = Vec::new();
        let n = order.len();
        let mut k: usize = 0;
        while k < n
            invariant
                n == order@.len(),
                base_first == order@.reverse(),
                k <= n,
                forall|j: int| 0 <= j < n ==> #[trigger] present(self.spec_links(), order@[j]),
                same_sprms(paragraph_sprms@, chain_sprms(self.styles@, base_first.take(k as int), 0)),
                same_sprms(character_sprms@, chain_sprms(self.styles@, base_first.take(k as int), 1)),
                same_sprms(table_sprms@, chain_sprms(self.styles@, base_first.take(k as int), 2)),
            decreases n - k,
        {
            let style_index = order[n - 1 - k];
            assert(present(self.spec_links(), order@[n - 1 - k]));
            assert(self.spec_links()[style_index as int] == slot_links(self.styles@[style_index as int]));
            let style = match self.get(style_index) {
                Some(s) => s,
                None => {
                    return Err(DocError::InvalidStyle(message("style disappeared")));
                },
            };
            proof {
                lemma_chain_sprms_push(self.styles@, base_first, k as int, 0);
                lemma_chain_sprms_push(self.styles@, base_first, k as int, 1);
                lemma_chain_sprms_push(self.styles@, base_first, k as int, 2);
                assert(base_first[k as int] == style_index);
            }
            let ghost p0 = paragraph_sprms@;
            let ghost c0 = character_sprms@;
            let ghost t0 = table_sprms@;
            append_sprms(&mut paragraph_sprms, &style.paragraph_sprms);
            append_sprms(&mut character_sprms, &style.character_sprms);
            append_sprms(&mut table_sprms, &style.table_sprms);
            proof {
                lemma_same_sprms_append(p0, paragraph_sprms@, chain_sprms(self.styles@, base_first.take(k as int), 0), style.paragraph_sprms@);
                lemma_same_sprms_append(c0, character_sprms@, chain_sprms(self.styles@, base_first.take(k as int), 1), style.character_sprms@);
                lemma_same_sprms_append(t0, table_sprms@, chain_sprms(self.styles@, base_first.take(k as int), 2), style.table_sprms@);
            }
            k = k + 1;
        }
        proof {
            assert(base_first.take(n as int) =~= base_first);
        }
        let ghost p = chain_sprms(self.styles@, base_first, 0);
        let ghost c = chain_sprms(self.styles@, base_first, 1);
        let paragraph = match apply_paragraph_sprms(paragraph_sprms.as_slice()) {
            Ok(v) => v,
            Err(e) => {
                proof {
                    let i = choose|i: int| 0 <= i < paragraph_sprms@.len() && !#[trigger] paragraph_sprm_ok(paragraph_sprms@[i]);
                    assert(same_sprm(paragraph_sprms@[i], p[i]));
                    assert(!paragraph_sprm_ok(p[i]));
                    assert(!(forall|j: int| 0 <= j < p.len() ==> #[trigger] paragraph_sprm_ok(p[j])));
                    assert(chain_from(self.spec_links(), Some(index), seq![], self.spec_depth() as int) == Outcome::<Seq<u16>>::Ok(order@));
                    assert(order@.reverse() == base_first);
                    assert(chain_sprms(self.spec_styles(), base_first, 0) == p);
                    assert(e.kind() == ErrorKind::InvalidFormatting);
                }
                return Err(e);
            },
        };
        proof {
            assert forall|i: int| 0 <= i < p.len() implies #[trigger] paragraph_sprm_ok(p[i]) by {
                assert(same_sprm(paragraph_sprms@[i], p[i]));
                assert(paragraph_sprm_ok(paragraph_sprms@[i]));
            }
        }
        let character = match apply_character_sprms(character_sprms.as_slice()) {
            Ok(v) => v,
            Err(e) => {
                proof {
                    let i = choose|i: int| 0 <= i < character_sprms@.len() && !#[trigger] character_sprm_ok(character_sprms@[i]);
                    assert(same_sprm(character_sprms@[i], c[i]));
                    assert(!character_sprm_ok(c[i]));
                    assert(!(forall|j: int| 0 <= j < c.len() ==> #[trigger] character_sprm_ok(c[j])));
                    assert(chain_from(self.spec_links(), Some(index), seq![], self.spec_depth() as int) == Outcome::<Seq<u16>>::Ok(order@));
                    assert(chain_sprms(self.spec_styles(), base_first, 1) == c);
                    assert(chain_sprms(self.spec_styles(), base_first, 0) == p);
                }
                return Err(e);
            },
        };
        proof {
            assert forall|i: int| 0 <= i < c.len() implies #[trigger] character_sprm_ok(c[i]) by {
                assert(same_sprm(character_sprms@[i], c[i]));
                assert(character_sprm_ok(character_sprms@[i]));
            }
        }
        Ok(InheritedStyleProperties { paragraph_sprms, character_sprms, table_sprms, paragraph, character })
    }

    /// Walks the base chain from `start`: the styles reached, derived first.
    fn base_chain(&self, start: u16) -> (res: Result<Vec<u16>>)
        ensures
            match chain_from(self.spec_links(), Some(start), seq![], self.spec_depth() as int) {
                Err(e) => res is Err && res->Err_0.kind() == e,
                Ok(order) => res matches Ok(v) && v@ == order && forall|j: int|
                    0 <= j < order.len() ==> #[trigger] present(self.spec_links(), order[j]),
            },
    {
        let ghost links = self.spec_links();
        let limit = self.max_inheritance_depth;
        let mut visited: Vec<u16> = Vec::new();
        let mut current: Option<u16> = Some(start);
        proof {
            assert(visited@ =~= seq![]);
        }
        loop
            invariant
                links == self.spec_links(),
                limit == self.spec_depth(),
                visited@.len() <= limit,
                chain_from(links, Some(start), seq![], limit as int) == chain_from(
                    links,
                    current,
                    visited@,
                    limit as int,
                ),
                forall|j: int| 0 <= j < visited@.len() ==> #[trigger] present(links, visited@[j]),
            decreases limit - visited@.len(),
        {
            let index = match current {
                None => {
                    return Ok(visited);
                },
                Some(i) => i,
            };
            if visited.len() >= limit {
                return Err(
                    DocError::ResourceLimit {
                        resource: "style-inheritance-depth",
                        actual: (visited.len() as u64).wrapping_add(1),
                        limit: limit as u64,
                    },
                );
            }
            if contains_u16(&visited, index) {
                return Err(DocError::InvalidStyle(message("style inheritance cycle")));
            }
            let style = match self.get(index) {
                Some(s) => s,
                None => {
                    return Err(DocError::InvalidStyle(message("style is absent or empty")));
                },
            };
            proof {
                assert(links[index as int] == slot_links(self.styles@[index as int]));
            }
            visited.push(index);
            current = style.base_style;
        }
    }

    /// Checks every style's base, next and linked references and its base chain.
    fn validate_references_and_cycles(&self) -> (res: Result<()>)
        requires
            forall|k: int|
                0 <= k < self.spec_styles().len() ==> (#[trigger] self.spec_styles()[k] matches Some(s) ==> s.index
                    == k),
        ensures
            match first_failure(link_checks(self.spec_links(), self.spec_depth() as int), self.spec_links().len() as int) {
                Some(e) => res is Err && res->Err_0.kind() == e,
                None => res is Ok,
            },
    {
        let ghost links = self.spec_links();
        let ghost checks = link_checks(links, self.spec_depth() as int);
        let n = self.styles.len();
        let mut k: usize = 0;
        while k < n
            invariant
                n == self.styles@.len(),
                links == self.spec_links(),
                links.len() == n,
                checks == link_checks(links, self.spec_depth() as int),
                k <= n,
                first_failure(checks, k as int) is None,
                forall|j: int|
                    0 <= j < self.spec_styles().len() ==> (#[trigger] self.spec_styles()[j] matches Some(s)
                        ==> s.index == j),
            decreases n - k,
        {
            proof {
                assert(links[k as int] == slot_links(self.styles@[k as int]));
            }
            match &self.styles[k] {
                None => {},
                Some(style) => {
                    assert(self.spec_styles()[k as int] matches Some(s) ==> s.index == k);
                    let failure = self.reference_failure(k, style);
                    if failure.is_some() {
                        proof {
                            assert(first_failure(checks, k as int + 1) == checks[k as int]);
                            lemma_first_failure_persists(checks, k as int + 1, n as int);
                        }
                        return Err(failure.unwrap());
                    }
                },
            }
            proof {
                assert(checks[k as int] is None);
            }
            k = k + 1;
        }
        Ok(())
    }

    /// The error of a style's references, if any.
    fn reference_failure(&self, k: usize, style: &StyleDefinition) -> (res: Option<DocError>)
        requires
            k < self.spec_styles().len(),
            self.spec_styles()[k as int] == Some(*style),
            style.index == k,
        ensures
            match link_check(self.spec_links(), k as int, self.spec_depth() as int) {
                None => res is None,
                Some(e) => res is Some && res.unwrap().kind() == e,
            },
    {
        proof {
            assert(self.spec_links()[k as int] == slot_links(self.styles@[k as int]));
        }
        if let Some(base) = style.base_style {
            match self.get(base) {
                None => {
                    return Some(DocError::InvalidStyle(message("style references an absent base style")));
                },
                Some(parent) => {
                    proof {
                        assert(base < self.styles@.len());
                        assert(self.spec_links()[base as int] == slot_links(self.styles@[base as int]));
                    }
                    if parent.kind != style.kind {
                        return Some(DocError::InvalidStyle(message("style inherits from a style of another kind")));
                    }
                },
            }
        }
        proof {
            if style.next_style < self.styles@.len() {
                assert(self.spec_links()[style.next_style as int] == slot_links(self.styles@[style.next_style as int]));
            }
        }
        if self.get(style.next_style).is_none() {
            return Some(DocError::InvalidStyle(message("style references an absent next style")));
        }
        if let Some(linked) = style.linked_style {
            proof {
                if linked < self.styles@.len() {
                    assert(self.spec_links()[linked as int] == slot_links(self.styles@[linked as int]));
                }
            }
            if self.get(linked).is_none() {
                return Some(DocError::InvalidStyle(message("style references an absent linked style")));
            }
        }
        match self.base_chain(style.index) {
            Ok(_) => None,
            Err(e) => Some(e),
        }
    }
}

/// Whether `s` is the two-byte character modifier `(opcode, value)`.
pub open spec fn font_sprm_matches(s: Sprm, fv: (u16, int)) -> bool {
    &&& s.opcode == fv.0
    &&& s.property_id == fv.0 & 0x01FF
    &&& s.special == (fv.0 & 0x0200 != 0)
    &&& s.group == PropertyGroup::Character
    &&& s.operand@ == seq![(fv.1 % 256) as u8, (fv.1 / 256) as u8]
}

/// The default-font modifier of `opcode` for slot `value`, where it is non-negative.
pub open spec fn font_value(opcode: u16, value: Option<i16>) -> Seq<(u16, int)> {
    match value {
        Some(v) => if v >= 0 {
            seq![(opcode, v as int)]
        } else {
            seq![]
        },
        None => seq![],
    }
}

/// The default-font modifiers of `f`, in slot order.
pub open spec fn default_font_values(f: DefaultStyleFonts) -> Seq<(u16, int)> {
    font_value(0x4A4F, Some(f.ascii)) + font_value(0x4A50, Some(f.east_asian)) + font_value(0x4A51, Some(f.other))
        + font_value(0x4A5E, f.bidi)
}

/// Appends the default-font modifier of `opcode` for a non-negative slot.
fn push_font_sprm(result: &mut Vec<Sprm>, opcode: u16, value: Option<i16>)
    requires
        opcode == 0x4A4F || opcode == 0x4A50 || opcode == 0x4A51 || opcode == 0x4A5E,
    ensures
        final(result)@.len() == old(result)@.len() + font_value(opcode, value).len(),
        forall|i: int| 0 <= i < old(result)@.len() ==> #[trigger] final(result)@[i] == old(result)@[i],
        forall|i: int|
            0 <= i < font_value(opcode, value).len() ==> #[trigger] font_sprm_matches(
                final(result)@[old(result)@.len() + i],
                font_value(opcode, value)[i],
            ),
{
    if let Some(v) = value {
        if v >= 0 {
            let u = v as u16;
            assert(u as int == v as int);
            let mut operand: Vec<u8> = Vec::new();
            operand.push((u % 256) as u8);
            operand.push((u / 256) as u8);
            assert(operand@ =~= seq![((v as int) % 256) as u8, ((v as int) / 256) as u8]);
            result.push(
                Sprm {
                    opcode,
                    property_id: opcode & 0x01FF,
                    special: opcode & 0x0200 != 0,
                    group: PropertyGroup::Character,
                    operand,
                },
            );
        }
    }
}

/// One more style along the order extends the chained SPRMs by its own.
proof fn lemma_chain_sprms_push(styles: Seq<Option<StyleDefinition>>, order: Seq<u16>, k: int, family: int)
    requires
        0 <= k < order.len(),
    ensures
        chain_sprms(styles, order.take(k + 1), family) == chain_sprms(styles, order.take(k), family) + {
            let s = styles[order[k] as int].unwrap();
            if family == 0 {
                s.paragraph_sprms@
            } else if family == 1 {
                s.character_sprms@
            } else {
                s.table_sprms@
            }
        },
    decreases k,
{
    let s = styles[order[k] as int].unwrap();
    let own = if family == 0 {
        s.paragraph_sprms@
    } else if family == 1 {
        s.character_sprms@
    } else {
        s.table_sprms@
    };
    if k == 0 {
        assert(order.take(1).drop_first() =~= seq![]);
        assert(chain_sprms(styles, order.take(0), family) =~= seq![]);
        assert(chain_sprms(styles, seq![], family) =~= seq![]);
        assert(chain_sprms(styles, order.take(1), family) =~= own);
    } else {
        lemma_chain_sprms_push(styles, order.drop_first(), k - 1, family);
        assert(order.take(k + 1).drop_first() =~= order.drop_first().take(k));
        assert(order.take(k).drop_first() =~= order.drop_first().take(k - 1));
        assert(order.drop_first()[k - 1] == order[k]);
        let first = styles[order[0] as int].unwrap();
        let own0 = if family == 0 {
            first.paragraph_sprms@
        } else if family == 1 {
            first.character_sprms@
        } else {
            first.table_sprms@
        };
        assert(chain_sprms(styles, order.take(k + 1), family) == own0 + chain_sprms(
            styles,
            order.drop_first().take(k),
            family,
        ));
        assert(chain_sprms(styles, order.take(k), family) == own0 + chain_sprms(
            styles,
            order.drop_first().take(k - 1),
            family,
        ));
        assert((own0 + chain_sprms(styles, order.drop_first().take(k - 1), family)) + own =~= own0 + (
        chain_sprms(styles, order.drop_first().take(k - 1), family) + own));
    }
}

/// Appends copies of `src` to `dst`.
pub fn append_sprms(dst: &mut Vec<Sprm>, src: &Vec<Sprm>)
    ensures
        final(dst)@.len() == old(dst)@.len() + src@.len(),
        forall|i: int| 0 <= i < old(dst)@.len() ==> #[trigger] final(dst)@[i] == old(dst)@[i],
        forall|i: int| 0 <= i < src@.len() ==> #[trigger] same_sprm(final(dst)@[old(dst)@.len() + i], src@[i]),
{
    let mut i: usize = 0;
    let ghost start = dst@;
    while i < src.len()
        invariant
            i <= src@.len(),
            dst@.len() == start.len() + i,
            start == old(dst)@,
            forall|j: int| 0 <= j < start.len() ==> #[trigger] dst@[j] == start[j],
            forall|j: int| 0 <= j < i ==> #[trigger] same_sprm(dst@[start.len() + j], src@[j]),
        decreases src@.len() - i,
    {
        dst.push(src[i].duplicate());
        i = i + 1;
    }
}

/// Appending copies of `own` to a sequence that matches `chain` matches `chain + own`.
pub proof fn lemma_same_sprms_append(before: Seq<Sprm>, after: Seq<Sprm>, chain: Seq<Sprm>, own: Seq<Sprm>)
    requires
        same_sprms(before, chain),
        after.len() == before.len() + own.len(),
        forall|i: int| 0 <= i < before.len() ==> #[trigger] after[i] == before[i],
        forall|i: int| 0 <= i < own.len() ==> #[trigger] same_sprm(after[before.len() + i], own[i]),
    ensures
        same_sprms(after, chain + own),
{
    assert forall|i: int| 0 <= i < after.len() implies #[trigger] same_sprm(after[i], (chain + own)[i]) by {
        if i < before.len() {
            assert(same_sprm(before[i], chain[i]));
        } else {
            assert(same_sprm(after[before.len() + (i - before.len())], own[i - before.len()]));
        }
    }
}

/// Whether `v` holds `x`.
fn contains_u16(v: &Vec<u16>, x: u16) -> (res: bool)
    ensures
        res == v@.contains(x),
{
    let mut i: usize = 0;
    while i < v.len()
        invariant
            i <= v@.len(),
            forall|j: int| 0 <= j < i ==> v@[j] != x,
        decreases v@.len() - i,
    {
        if v[i] == x {
            assert(v@[i as int] == x);
            return true;
        }
        i = i + 1;
    }
    false
}

/// `data[start..end]`.
fn slice_range(data: &[u8], start: usize, end: usize) -> (res: &[u8])
    requires
        start <= end <= data@.len(),
    ensures
        res@ == data@.subrange(start as int, end as int),
{
    let (head, _) = data.split_at(end);
    let (_, tail) = head.split_at(start);
    tail
}

// ---- Parsing one STD.

/// Reads a little-endian `u16` of a style record, failing as an invalid style.
fn read_style_u16(data: &[u8], offset: usize) -> (res: Result<u16>)
    ensures
        res is Ok <==> offset + 2 <= data@.len(),
        res matches Ok(v) ==> v == le_u16(data@, offset as int),
        res is Err ==> res->Err_0.kind() == ErrorKind::InvalidStyle,
{
    if offset > data.len() || data.len() - offset < 2 {
        return Err(DocError::InvalidStyle(message("style field exceeds its record")));
    }
    Ok(read_u16_le(data, offset))
}

/// Parses one non-empty STD of style `index`.
#[verifier::rlimit(60)]
fn parse_style(index: u16, data: &[u8], stdf_size: usize) -> (res: Result<StyleDefinition>)
    requires
        stdf_size == 10 || stdf_size == 18,
    ensures
        res is Ok <==> style_ok(index, data@, stdf_size as int),
        res matches Ok(s) ==> style_decoded(s, index, data@, stdf_size as int),
        res is Err ==> res->Err_0.kind() == ErrorKind::InvalidStyle,
{
    let len = data.len();
    if len < stdf_size {
        return Err(DocError::InvalidStyle(message("style is shorter than its Stdf")));
    }
    let word0 = read_u16_le(data, 0);
    let word1 = read_u16_le(data, 2);
    let word2 = read_u16_le(data, 4);
    let recorded_size = read_u16_le(data, 6) as usize;
    if recorded_size != len {
        return Err(DocError::InvalidStyle(message("style bchUpe does not match cbStd")));
    }
    let invariant_id = word0 & 0x0FFF;
    let kind = match word1 & 0x000F {
        1 => StyleKind::Paragraph,
        2 => StyleKind::Character,
        3 => StyleKind::Table,
        4 => StyleKind::Numbering,
        _ => {
            return Err(DocError::InvalidStyle(message("style has an invalid stk")));
        },
    };
    let raw_base = word1 >> 4u16;
    let base_style = if raw_base != NO_BASE_STYLE {
        Some(raw_base)
    } else {
        None
    };
    let upx_count = (word2 & 0x000F) as usize;
    let next_style = word2 >> 4u16;
    let linked_style = if stdf_size == 18 {
        let linked = read_u16_le(data, 10) & 0x0FFF;
        if linked != 0 {
            Some(linked)
        } else {
            None
        }
    } else {
        None
    };
    let valid_count = match kind {
        StyleKind::Paragraph => upx_count == 2 || upx_count == 3,
        StyleKind::Character => upx_count == 1 || upx_count == 2,
        StyleKind::Table => upx_count == 3,
        StyleKind::Numbering => upx_count == 1,
    };
    if !valid_count {
        return Err(DocError::InvalidStyle(message("style has an invalid cupx")));
    }
    let (name, groups_offset) = parse_style_name(data, stdf_size)?;
    let groups = parse_upx_groups(data, groups_offset, upx_count)?;
    let ghost gs = std_groups(data@, stdf_size as int).unwrap();
    assert(groups@.map_values(|v: Vec<u8>| v@) == gs);
    assert(groups@[0]@ == gs[0]);
    let mut paragraph_sprms: Vec<Sprm> = Vec::new();
    let mut paragraph_upx_style_index: Option<u16> = None;
    let mut character_sprms: Vec<Sprm> = Vec::new();
    let mut table_sprms: Vec<Sprm> = Vec::new();
    let mut revision_upx: Vec<Vec<u8>> = Vec::new();
    match kind {
        StyleKind::Paragraph => {
            assert(groups@[1]@ == gs[1]);
            let (istd, sprms) = decode_style_papx(groups[0].as_slice())?;
            paragraph_upx_style_index = Some(istd);
            paragraph_sprms = sprms;
            character_sprms = decode_expected_group(groups[1].as_slice(), PropertyGroup::Character)?;
            revision_upx = skip_groups(&groups, 2);
        },
        StyleKind::Character => {
            character_sprms = decode_expected_group(groups[0].as_slice(), PropertyGroup::Character)?;
            revision_upx = skip_groups(&groups, 1);
        },
        StyleKind::Table => {
            assert(groups@[1]@ == gs[1]);
            assert(groups@[2]@ == gs[2]);
            table_sprms = decode_expected_group(groups[0].as_slice(), PropertyGroup::Table)?;
            let (istd, sprms) = decode_style_papx(groups[1].as_slice())?;
            paragraph_upx_style_index = Some(istd);
            paragraph_sprms = sprms;
            character_sprms = decode_expected_group(groups[2].as_slice(), PropertyGroup::Character)?;
        },
        StyleKind::Numbering => {
            let group = groups[0].as_slice();
            paragraph_sprms = if group.len() == 2 {
                assert(numbering_grpprl(gs[0], index) =~= seq![]);
                assert(grpprl_frames(seq![], 0) == Some(Seq::<(u16, Seq<u8>)>::empty()));
                Vec::new()
            } else if group.len() > 2 && read_u16_le(group, 0) == index {
                let rest = slice_range(group, 2, group.len());
                decode_expected_group(rest, PropertyGroup::Paragraph)?
            } else {
                decode_expected_group(group, PropertyGroup::Paragraph)?
            };
        },
    }
    Ok(
        StyleDefinition {
            index,
            invariant_id,
            kind,
            base_style,
            next_style,
            linked_style,
            name,
            paragraph_upx_style_index,
            paragraph_sprms,
            character_sprms,
            table_sprms,
            revision_upx,
        },
    )
}

/// Copies of the groups from `from` on.
fn skip_groups(groups: &Vec<Vec<u8>>, from: usize) -> (res: Vec<Vec<u8>>)
    requires
        from <= groups@.len(),
    ensures
        res@.map_values(|v: Vec<u8>| v@) == groups@.map_values(|v: Vec<u8>| v@).skip(from as int),
{
    let mut result: Vec<Vec<u8>> = Vec::new();
    let mut j: usize = from;
    while j < groups.len()
        invariant
            from <= j <= groups@.len(),
            result@.len() == j - from,
            forall|i: int| 0 <= i < result@.len() ==> #[trigger] result@[i]@ == groups@[from + i]@,
        decreases groups@.len() - j,
    {
        result.push(slice_to_vec(groups[j].as_slice()));
        j = j + 1;
    }
    assert(result@.map_values(|v: Vec<u8>| v@) =~= groups@.map_values(|v: Vec<u8>| v@).skip(from as int));
    result
}

/// Parses the style name: the name and the offset just past its terminator.
fn parse_style_name(data: &[u8], stdf_size: usize) -> (res: Result<(String, usize)>)
    requires
        stdf_size == 10 || stdf_size == 18,
        data@.len() >= stdf_size,
    ensures
        res is Ok <==> name_ok(data@, stdf_size as int),
        res matches Ok(r) ==> r.0@ == utf16_strict(name_units(data@, stdf_size as int)).unwrap() && r.1 == name_end(
            data@,
            stdf_size as int,
        ),
        res is Err ==> res->Err_0.kind() == ErrorKind::InvalidStyle,
{
    let len = data.len();
    let name_length = read_style_u16(data, stdf_size)? as usize;
    let name_start = stdf_size + 2;
    let name_end_offset = name_start + 2 * name_length;
    if name_end_offset > len {
        return Err(DocError::InvalidStyle(message("style name exceeds its STD record")));
    }
    if read_style_u16(data, name_end_offset)? != 0 {
        return Err(DocError::InvalidStyle(message("style name has a nonzero terminator")));
    }
    let ghost expected = name_units(data@, stdf_size as int);
    let mut units: Vec<u16> = Vec::new();
    let mut i: usize = 0;
    while i < name_length
        invariant
            len == data@.len(),
            name_start == stdf_size + 2,
            name_start + 2 * name_length <= len,
            name_length == le_u16(data@, stdf_size as int),
            expected == name_units(data@, stdf_size as int),
            i <= name_length,
            units@ == expected.take(i as int),
        decreases name_length - i,
    {
        units.push(read_u16_le(data, name_start + 2 * i));
        assert(units@ =~= expected.take(i as int + 1));
        i = i + 1;
    }
    assert(units@ =~= expected);
    let name = match decode_utf16(units.as_slice()) {
        Some(n) => n,
        None => {
            return Err(DocError::InvalidStyle(message("style name is invalid UTF-16")));
        },
    };
    if !name_entries_valid(units.as_slice()) {
        return Err(DocError::InvalidStyle(message("style contains an empty style name")));
    }
    Ok((name, name_end_offset + 2))
}

/// Whether name units are a non-empty, comma-separated list without empty entries.
fn name_entries_valid(u: &[u16]) -> (res: bool)
    ensures
        res == name_entries_ok(u@),
{
    let n = u.len();
    if n == 0 || u[0] == 0x2C || u[n - 1] == 0x2C {
        return false;
    }
    let mut i: usize = 0;
    while i + 1 < n
        invariant
            n == u@.len(),
            n >= 1,
            i + 1 <= n,
            forall|j: int| 0 <= j < i ==> !(#[trigger] u@[j] == 0x2C && u@[j + 1] == 0x2C),
        decreases n - i,
    {
        if u[i] == 0x2C && u[i + 1] == 0x2C {
            return false;
        }
        i = i + 1;
    }
    true
}

/// Reads `count` UPX records from `offset`, which must end the record exactly.
fn parse_upx_groups(data: &[u8], offset: usize, count: usize) -> (res: Result<Vec<Vec<u8>>>)
    requires
        count <= 15,
        offset <= data@.len(),
    ensures
        res is Ok <==> upx_groups(data@, offset as int, count as int) is Some,
        res matches Ok(v) ==> v@.map_values(|g: Vec<u8>| g@) == upx_groups(data@, offset as int, count as int).unwrap()
            && v@.len() == count,
        res is Err ==> res->Err_0.kind() == ErrorKind::InvalidStyle,
{
    let len = data.len();
    let mut groups: Vec<Vec<u8>> = Vec::new();
    let mut pos = offset;
    let mut k: usize = 0;
    let ghost first = offset as int;
    proof {
        assert(groups@.map_values(|g: Vec<u8>| g@) =~= seq![]);
    }
    while k < count
        invariant
            len == data@.len(),
            first == offset,
            pos <= len,
            k <= count,
            count <= 15,
            groups@.len() == k,
            upx_groups(data@, first, count as int) is Some <==> upx_groups(data@, pos as int, (count - k) as int) is Some,
            upx_groups(data@, first, count as int) is Some ==> upx_groups(data@, first, count as int).unwrap()
                == groups@.map_values(|g: Vec<u8>| g@) + upx_groups(data@, pos as int, (count - k) as int).unwrap(),
        decreases count - k,
    {
        if len - pos < 2 {
            assert(upx_groups(data@, pos as int, (count - k) as int) is None);
            return Err(DocError::InvalidStyle(message("UPX length exceeds its STD record")));
        }
        let length = read_u16_le(data, pos) as usize;
        if length > len - pos - 2 {
            assert(upx_groups(data@, pos as int, (count - k) as int) is None);
            return Err(DocError::InvalidStyle(message("UPX exceeds its STD record")));
        }
        let end = pos + 2 + length;
        let group = slice_to_vec(slice_range(data, pos + 2, end));
        let ghost before = groups@.map_values(|g: Vec<u8>| g@);
        groups.push(group);
        proof {
            assert(groups@.map_values(|g: Vec<u8>| g@) =~= before.push(data@.subrange(pos + 2, end as int)));
            let rest = upx_groups(data@, (end + length % 2) as int, (count - k - 1) as int);
            if rest is Some {
                assert(before + upx_groups(data@, pos as int, (count - k) as int).unwrap() =~= before.push(
                    data@.subrange(pos + 2, end as int),
                ) + rest.unwrap());
            }
        }
        if length % 2 > len - end {
            proof {
                lemma_upx_groups_past_end(data@, (end + length % 2) as int, (count - k - 1) as int);
            }
            return Err(DocError::InvalidStyle(message("UPX padding exceeds its STD record")));
        }
        pos = end + length % 2;
        k = k + 1;
    }
    if pos != len {
        return Err(DocError::InvalidStyle(message("trailing bytes follow the UPX records")));
    }
    proof {
        assert(groups@.map_values(|g: Vec<u8>| g@) + seq![] =~= groups@.map_values(|g: Vec<u8>| g@));
    }
    Ok(groups)
}

/// Records starting past the end of `d` cannot be read.
proof fn lemma_upx_groups_past_end(d: Seq<u8>, offset: int, count: int)
    requires
        offset > d.len(),
    ensures
        upx_groups(d, offset, count) is None,
    decreases count,
{
}

/// A copy of `s`.
fn slice_to_vec(s: &[u8]) -> (res: Vec<u8>)
    ensures
        res@ == s@,
{
    let mut v: Vec<u8> = Vec::new();
    let mut i: usize = 0;
    while i < s.len()
        invariant
            i <= s@.len(),
            v@ == s@.take(i as int),
        decreases s@.len() - i,
    {
        v.push(s[i]);
        assert(v@ =~= s@.take(i as int + 1));
        i = i + 1;
    }
    assert(v@ =~= s@);
    v
}

/// Whether every byte of `s` is zero.
fn is_all_zero(s: &[u8]) -> (res: bool)
    ensures
        res == all_zero(s@),
{
    let mut i: usize = 0;
    while i < s.len()
        invariant
            i <= s@.len(),
            forall|j: int| 0 <= j < i ==> #[trigger] s@[j] == 0,
        decreases s@.len() - i,
    {
        if s[i] != 0 {
            return false;
        }
        i = i + 1;
    }
    true
}

/// Decodes a `UpxPapx`: its stored style index and paragraph SPRMs.
fn decode_style_papx(upx: &[u8]) -> (res: Result<(u16, Vec<Sprm>)>)
    ensures
        res is Ok <==> papx_ok(upx@),
        res matches Ok(r) ==> r.0 == le_u16(upx@, 0) && sprms_of(r.1@, papx_grpprl(upx@)),
        res is Err ==> res->Err_0.kind() == ErrorKind::InvalidStyle,
{
    let stored_style = read_style_u16(upx, 0)?;
    let grpprl = slice_range(upx, 2, upx.len());
    if is_all_zero(grpprl) {
        assert(papx_grpprl(upx@) =~= seq![]);
        assert(grpprl_frames(seq![], 0) == Some(Seq::<(u16, Seq<u8>)>::empty()));
        return Ok((stored_style, Vec::new()));
    }
    let sprms = decode_expected_group(grpprl, PropertyGroup::Paragraph)?;
    Ok((stored_style, sprms))
}

/// Decodes a `grpprl` whose SPRMs must all belong to `group`.
fn decode_expected_group(data: &[u8], group: PropertyGroup) -> (res: Result<Vec<Sprm>>)
    ensures
        res is Ok <==> group_ok(data@, group),
        res matches Ok(v) ==> sprms_of(v@, data@),
        res is Err ==> res->Err_0.kind() == ErrorKind::InvalidStyle,
{
    let sprms = match decode_grpprl(data) {
        Ok(v) => v,
        Err(_) => {
            return Err(DocError::InvalidStyle(message("style UPX cannot be framed")));
        },
    };
    let ghost frames = grpprl_frames(data@, 0).unwrap();
    let mut i: usize = 0;
    while i < sprms.len()
        invariant
            sprms_are_frames(sprms@, frames),
            frames == grpprl_frames(data@, 0).unwrap(),
            i <= sprms@.len(),
            forall|j: int| 0 <= j < i ==> crate::sprm::sprm_group((#[trigger] frames[j]).0) == Some(group),
        decreases sprms@.len() - i,
    {
        assert(sprms@[i as int].is_frame(frames[i as int]));
        if sprms[i].group != group {
            return Err(DocError::InvalidStyle(message("style UPX contains a SPRM of another family")));
        }
        i = i + 1;
    }
    Ok(sprms)
}

} // verus!

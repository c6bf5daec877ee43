//! Main-document PLCFSED/SED/SEPX parsing and source-proven section geometry.

use vstd::prelude::*;

use crate::binary::{checked_slice, le_i32, le_u16, read_i32_le, read_u16_le, strictly_increasing};
use crate::error::{DocError, ErrorKind, Outcome, Result, first_failure, lemma_first_failure_persists, message};
use crate::fib::{Fib, INDEX_PLCF_SED};
use crate::limits::DocLimits;
use crate::properties::last_index;
use crate::sprm::{PropertyGroup, Sprm, decode_grpprl, grpprl_frames, sprms_are_frames};

verus! {

/// Size of one section descriptor.
pub const SED_SIZE: usize = 12;

/// Explicit page orientation stored in section properties.
#[derive(Debug, Clone, Copy, PartialEq, Eq, Structural)]
pub enum PageOrientation {
    /// Portrait orientation.
    Portrait,
    /// Landscape orientation.
    Landscape,
}

/// Source-proven section layout properties. `None` means not explicitly stored.
#[derive(Debug, Clone, Copy, PartialEq, Eq, Structural)]
pub struct SectionGeometry {
    /// Section break code from `sprmSBkc`.
    pub break_code: Option<u8>,
    /// Whether the first page uses distinct headers and footers.
    pub title_page: Option<bool>,
    /// Explicit page orientation.
    pub orientation: Option<PageOrientation>,
    /// Page width in twips.
    pub page_width_twips: Option<u16>,
    /// Page height in twips.
    pub page_height_twips: Option<u16>,
    /// Left margin in twips.
    pub margin_left_twips: Option<u16>,
    /// Right margin in twips.
    pub margin_right_twips: Option<u16>,
    /// Signed top margin in twips; sign retains fixed/minimum semantics.
    pub margin_top_twips: Option<i16>,
    /// Signed bottom margin in twips; sign retains fixed/minimum semantics.
    pub margin_bottom_twips: Option<i16>,
    /// Gutter in twips.
    pub gutter_twips: Option<u16>,
    /// Header distance from the top edge in twips.
    pub header_distance_twips: Option<u16>,
    /// Footer distance from the bottom edge in twips.
    pub footer_distance_twips: Option<u16>,
    /// Explicit number of columns.
    pub column_count: Option<u16>,
    /// Equal-column spacing in twips.
    pub column_spacing_twips: Option<u16>,
    /// Whether columns are evenly spaced.
    pub evenly_spaced_columns: Option<bool>,
    /// Whether a separator is drawn between columns.
    pub line_between_columns: Option<bool>,
    /// Whether the section uses right-to-left layout.
    pub bidi: Option<bool>,
}

impl SectionGeometry {
    /// Whether no layout property is stored.
    pub open spec fn no_changes(&self) -> bool {
        &&& self.break_code is None
        &&& self.title_page is None
        &&& self.orientation is None
        &&& self.page_width_twips is None
        &&& self.page_height_twips is None
        &&& self.margin_left_twips is None
        &&& self.margin_right_twips is None
        &&& self.margin_top_twips is None
        &&& self.margin_bottom_twips is None
        &&& self.gutter_twips is None
        &&& self.header_distance_twips is None
        &&& self.footer_distance_twips is None
        &&& self.column_count is None
        &&& self.column_spacing_twips is None
        &&& self.evenly_spaced_columns is None
        &&& self.line_between_columns is None
        &&& self.bidi is None
    }
}

impl Default for SectionGeometry {
    fn default() -> (res: Self)
        ensures
            res.no_changes(),
    {
        SectionGeometry {
            break_code: None,
            title_page: None,
            orientation: None,
            page_width_twips: None,
            page_height_twips: None,
            margin_left_twips: None,
            margin_right_twips: None,
            margin_top_twips: None,
            margin_bottom_twips: None,
            gutter_twips: None,
            header_distance_twips: None,
            footer_distance_twips: None,
            column_count: None,
            column_spacing_twips: None,
            evenly_spaced_columns: None,
            line_between_columns: None,
            bidi: None,
        }
    }
}

/// One section of the main story.
#[derive(Debug, Clone, PartialEq, Eq)]
pub struct Section {
    /// Inclusive main-story CP.
    pub cp_start: u32,
    /// Exclusive main-story CP, clipped to `ccpText`.
    pub cp_end: u32,
    /// Exact decoded SEPX modifiers in source order.
    pub sprms: Vec<Sprm>,
    /// Known layout properties derived only from explicit SPRMs.
    pub geometry: SectionGeometry,
    /// Well-framed but currently unsupported section opcodes.
    pub unsupported_opcodes: Vec<u16>,
}

/// The orientation an `sprmSBOrientation` byte of 1 or 2 stands for.
pub open spec fn orientation_of(b: u8) -> PageOrientation {
    if b == 1 {
        PageOrientation::Portrait
    } else {
        PageOrientation::Landscape
    }
}

/// Whether section SPRM `s` has a valid operand.
pub open spec fn section_operand_ok(opcode: u16, o: Seq<u8>) -> bool {
    match opcode {
        0x3009 => o.len() >= 1,
        0x300A => o.len() >= 1 && o[0] <= 1,
        0x301D => o.len() >= 1 && (o[0] == 1 || o[0] == 2),
        0xB01F => o.len() == 2 && 144 <= le_u16(o, 0) <= 31680,
        0xB020 => o.len() == 2 && 144 <= le_u16(o, 0) <= 31680,
        0xB021 => o.len() == 2,
        0xB022 => o.len() == 2,
        0x9023 => o.len() == 2,
        0x9024 => o.len() == 2,
        0xB025 => o.len() == 2,
        0xB017 => o.len() == 2,
        0xB018 => o.len() == 2,
        0x500B => o.len() == 2 && le_u16(o, 0) <= 43,
        0x900C => o.len() == 2,
        0x3005 => o.len() >= 1 && o[0] <= 1,
        0x3019 => o.len() >= 1 && o[0] <= 1,
        0x3228 => o.len() >= 1 && o[0] <= 1,
        _ => true,
    }
}

/// Whether `opcode` is interpreted as a section property.
pub open spec fn section_known(opcode: u16) -> bool {
    opcode == 0x3009
        || opcode == 0x300A
        || opcode == 0x301D
        || opcode == 0xB01F
        || opcode == 0xB020
        || opcode == 0xB021
        || opcode == 0xB022
        || opcode == 0x9023
        || opcode == 0x9024
        || opcode == 0xB025
        || opcode == 0xB017
        || opcode == 0xB018
        || opcode == 0x500B
        || opcode == 0x900C
        || opcode == 0x3005
        || opcode == 0x3019
        || opcode == 0x3228
}

/// Whether `g` holds, for each section property, the value given by the last
/// of the first `n` SPRMs that sets it.
pub open spec fn section_fields_match(g: SectionGeometry, sprms: Seq<Sprm>, n: int) -> bool {
    &&& g.break_code == match last_index(sprms, n, PropertyGroup::Section, 0x3009, 0x3009, 0x3009, 0x3009) {
        Some(i) => Some(sprms[i].operand@[0]),
        None => None,
    }
    &&& g.title_page == match last_index(sprms, n, PropertyGroup::Section, 0x300A, 0x300A, 0x300A, 0x300A) {
        Some(i) => Some(sprms[i].operand@[0] == 1),
        None => None,
    }
    &&& g.orientation == match last_index(sprms, n, PropertyGroup::Section, 0x301D, 0x301D, 0x301D, 0x301D) {
        Some(i) => Some(orientation_of(sprms[i].operand@[0])),
        None => None,
    }
    &&& g.page_width_twips == match last_index(sprms, n, PropertyGroup::Section, 0xB01F, 0xB01F, 0xB01F, 0xB01F) {
        Some(i) => Some(le_u16(sprms[i].operand@, 0)),
        None => None,
    }
    &&& g.page_height_twips == match last_index(sprms, n, PropertyGroup::Section, 0xB020, 0xB020, 0xB020, 0xB020) {
        Some(i) => Some(le_u16(sprms[i].operand@, 0)),
        None => None,
    }
    &&& g.margin_left_twips == match last_index(sprms, n, PropertyGroup::Section, 0xB021, 0xB021, 0xB021, 0xB021) {
        Some(i) => Some(le_u16(sprms[i].operand@, 0)),
        None => None,
    }
    &&& g.margin_right_twips == match last_index(sprms, n, PropertyGroup::Section, 0xB022, 0xB022, 0xB022, 0xB022) {
        Some(i) => Some(le_u16(sprms[i].operand@, 0)),
        None => None,
    }
    &&& g.margin_top_twips == match last_index(sprms, n, PropertyGroup::Section, 0x9023, 0x9023, 0x9023, 0x9023) {
        Some(i) => Some(le_u16(sprms[i].operand@, 0) as i16),
        None => None,
    }
    &&& g.margin_bottom_twips == match last_index(sprms, n, PropertyGroup::Section, 0x9024, 0x9024, 0x9024, 0x9024) {
        Some(i) => Some(le_u16(sprms[i].operand@, 0) as i16),
        None => None,
    }
    &&& g.gutter_twips == match last_index(sprms, n, PropertyGroup::Section, 0xB025, 0xB025, 0xB025, 0xB025) {
        Some(i) => Some(le_u16(sprms[i].operand@, 0)),
        None => None,
    }
    &&& g.header_distance_twips == match last_index(sprms, n, PropertyGroup::Section, 0xB017, 0xB017, 0xB017, 0xB017) {
        Some(i) => Some(le_u16(sprms[i].operand@, 0)),
        None => None,
    }
    &&& g.footer_distance_twips == match last_index(sprms, n, PropertyGroup::Section, 0xB018, 0xB018, 0xB018, 0xB018) {
        Some(i) => Some(le_u16(sprms[i].operand@, 0)),
        None => None,
    }
    &&& g.column_count == match last_index(sprms, n, PropertyGroup::Section, 0x500B, 0x500B, 0x500B, 0x500B) {
        Some(i) => Some((le_u16(sprms[i].operand@, 0) + 1) as u16),
        None => None,
    }
    &&& g.column_spacing_twips == match last_index(sprms, n, PropertyGroup::Section, 0x900C, 0x900C, 0x900C, 0x900C) {
        Some(i) => Some(le_u16(sprms[i].operand@, 0)),
        None => None,
    }
    &&& g.evenly_spaced_columns == match last_index(sprms, n, PropertyGroup::Section, 0x3005, 0x3005, 0x3005, 0x3005) {
        Some(i) => Some(sprms[i].operand@[0] == 1),
        None => None,
    }
    &&& g.line_between_columns == match last_index(sprms, n, PropertyGroup::Section, 0x3019, 0x3019, 0x3019, 0x3019) {
        Some(i) => Some(sprms[i].operand@[0] == 1),
        None => None,
    }
    &&& g.bidi == match last_index(sprms, n, PropertyGroup::Section, 0x3228, 0x3228, 0x3228, 0x3228) {
        Some(i) => Some(sprms[i].operand@[0] == 1),
        None => None,
    }
}

/// How one section SPRM `s` changes the geometry from `g0` to `g1`.
pub open spec fn section_step(g0: SectionGeometry, g1: SectionGeometry, s: Sprm) -> bool {
    &&& g1.break_code == (if s.group == PropertyGroup::Section && (s.opcode == 0x3009) {
        Some(s.operand@[0])
    } else {
        g0.break_code
    })
    &&& g1.title_page == (if s.group == PropertyGroup::Section && (s.opcode == 0x300A) {
        Some(s.operand@[0] == 1)
    } else {
        g0.title_page
    })
    &&& g1.orientation == (if s.group == PropertyGroup::Section && (s.opcode == 0x301D) {
        Some(orientation_of(s.operand@[0]))
    } else {
        g0.orientation
    })
    &&& g1.page_width_twips == (if s.group == PropertyGroup::Section && (s.opcode == 0xB01F) {
        Some(le_u16(s.operand@, 0))
    } else {
        g0.page_width_twips
    })
    &&& g1.page_height_twips == (if s.group == PropertyGroup::Section && (s.opcode == 0xB020) {
        Some(le_u16(s.operand@, 0))
    } else {
        g0.page_height_twips
    })
    &&& g1.margin_left_twips == (if s.group == PropertyGroup::Section && (s.opcode == 0xB021) {
        Some(le_u16(s.operand@, 0))
    } else {
        g0.margin_left_twips
    })
    &&& g1.margin_right_twips == (if s.group == PropertyGroup::Section && (s.opcode == 0xB022) {
        Some(le_u16(s.operand@, 0))
    } else {
        g0.margin_right_twips
    })
    &&& g1.margin_top_twips == (if s.group == PropertyGroup::Section && (s.opcode == 0x9023) {
        Some(le_u16(s.operand@, 0) as i16)
    } else {
        g0.margin_top_twips
    })
    &&& g1.margin_bottom_twips == (if s.group == PropertyGroup::Section && (s.opcode == 0x9024) {
        Some(le_u16(s.operand@, 0) as i16)
    } else {
        g0.margin_bottom_twips
    })
    &&& g1.gutter_twips == (if s.group == PropertyGroup::Section && (s.opcode == 0xB025) {
        Some(le_u16(s.operand@, 0))
    } else {
        g0.gutter_twips
    })
    &&& g1.header_distance_twips == (if s.group == PropertyGroup::Section && (s.opcode == 0xB017) {
        Some(le_u16(s.operand@, 0))
    } else {
        g0.header_distance_twips
    })
    &&& g1.footer_distance_twips == (if s.group == PropertyGroup::Section && (s.opcode == 0xB018) {
        Some(le_u16(s.operand@, 0))
    } else {
        g0.footer_distance_twips
    })
    &&& g1.column_count == (if s.group == PropertyGroup::Section && (s.opcode == 0x500B) {
        Some((le_u16(s.operand@, 0) + 1) as u16)
    } else {
        g0.column_count
    })
    &&& g1.column_spacing_twips == (if s.group == PropertyGroup::Section && (s.opcode == 0x900C) {
        Some(le_u16(s.operand@, 0))
    } else {
        g0.column_spacing_twips
    })
    &&& g1.evenly_spaced_columns == (if s.group == PropertyGroup::Section && (s.opcode == 0x3005) {
        Some(s.operand@[0] == 1)
    } else {
        g0.evenly_spaced_columns
    })
    &&& g1.line_between_columns == (if s.group == PropertyGroup::Section && (s.opcode == 0x3019) {
        Some(s.operand@[0] == 1)
    } else {
        g0.line_between_columns
    })
    &&& g1.bidi == (if s.group == PropertyGroup::Section && (s.opcode == 0x3228) {
        Some(s.operand@[0] == 1)
    } else {
        g0.bidi
    })
}

/// Whether frame `f` is a section SPRM with a valid operand.
pub open spec fn section_frame_ok(f: (u16, Seq<u8>)) -> bool {
    &&& crate::sprm::sprm_group(f.0) == Some(PropertyGroup::Section)
    &&& section_operand_ok(f.0, f.1)
}

/// Whether every SPRM is a section SPRM with a valid operand.
pub open spec fn section_sprms_ok(sprms: Seq<Sprm>) -> bool {
    forall|i: int|
        0 <= i < sprms.len() ==> (#[trigger] sprms[i]).group == PropertyGroup::Section && section_operand_ok(
            sprms[i].opcode,
            sprms[i].operand@,
        )
}

/// The opcodes of the first `n` SPRMs that this parser does not interpret.
pub open spec fn section_unknown_opcodes(sprms: Seq<Sprm>, n: int) -> Seq<u16>
    decreases n,
{
    if n <= 0 {
        seq![]
    } else if !section_known(sprms[n - 1].opcode) {
        section_unknown_opcodes(sprms, n - 1).push(sprms[n - 1].opcode)
    } else {
        section_unknown_opcodes(sprms, n - 1)
    }
}

/// One more SPRM extends the last-wins geometry of a prefix.
proof fn lemma_section_step(g0: SectionGeometry, g1: SectionGeometry, sprms: Seq<Sprm>, i: int)
    requires
        0 <= i < sprms.len(),
        sprms[i].group == PropertyGroup::Section,
        section_fields_match(g0, sprms, i),
        section_step(g0, g1, sprms[i]),
    ensures
        section_fields_match(g1, sprms, i + 1),
{
}

// ---- Operand decoding.

/// The error for an invalid section operand.
fn invalid_section(what: &str) -> (res: DocError)
    ensures
        res.kind() == ErrorKind::InvalidSection,
{
    DocError::InvalidSection(message(what))
}

/// The first operand byte.
fn first_byte(sprm: &Sprm) -> (res: Result<u8>)
    ensures
        res is Ok <==> sprm.operand@.len() >= 1,
        res matches Ok(v) ==> v == sprm.operand@[0],
        res is Err ==> res->Err_0.kind() == ErrorKind::InvalidSection,
{
    if sprm.operand.len() == 0 {
        return Err(invalid_section("section SPRM has no byte operand"));
    }
    Ok(sprm.operand[0])
}

/// A `Bool8` in the first operand byte.
fn section_bool(sprm: &Sprm) -> (res: Result<bool>)
    ensures
        res is Ok <==> sprm.operand@.len() >= 1 && sprm.operand@[0] <= 1,
        res matches Ok(v) ==> v == (sprm.operand@[0] == 1),
        res is Err ==> res->Err_0.kind() == ErrorKind::InvalidSection,
{
    let value = first_byte(sprm)?;
    if value > 1 {
        return Err(invalid_section("section SPRM has an invalid Bool8 value"));
    }
    Ok(value == 1)
}

/// A two-byte operand.
fn section_word(sprm: &Sprm) -> (res: Result<u16>)
    ensures
        res is Ok <==> sprm.operand@.len() == 2,
        res matches Ok(v) ==> v == le_u16(sprm.operand@, 0),
        res is Err ==> res->Err_0.kind() == ErrorKind::InvalidSection,
{
    if sprm.operand.len() != 2 {
        return Err(invalid_section("section SPRM does not have a two-byte operand"));
    }
    Ok(read_u16_le(sprm.operand.as_slice(), 0))
}

/// A signed two-byte operand.
fn section_signed_word(sprm: &Sprm) -> (res: Result<i16>)
    ensures
        res is Ok <==> sprm.operand@.len() == 2,
        res matches Ok(v) ==> v == le_u16(sprm.operand@, 0) as i16,
        res is Err ==> res->Err_0.kind() == ErrorKind::InvalidSection,
{
    let value = section_word(sprm)?;
    Ok(value as i16)
}

/// The column count: the stored value plus one, with the stored value at most 43.
fn column_count(sprm: &Sprm) -> (res: Result<u16>)
    ensures
        res is Ok <==> sprm.operand@.len() == 2 && le_u16(sprm.operand@, 0) <= 43,
        res matches Ok(v) ==> v == (le_u16(sprm.operand@, 0) + 1) as u16,
        res is Err ==> res->Err_0.kind() == ErrorKind::InvalidSection,
{
    let columns_minus_one = section_word(sprm)?;
    if columns_minus_one > 43 {
        return Err(invalid_section("sprmSCcolumns value exceeds 43"));
    }
    Ok(columns_minus_one + 1)
}

/// The page orientation: 1 portrait, 2 landscape.
fn orientation(sprm: &Sprm) -> (res: Result<PageOrientation>)
    ensures
        res is Ok <==> sprm.operand@.len() >= 1 && (sprm.operand@[0] == 1 || sprm.operand@[0] == 2),
        res matches Ok(v) ==> v == orientation_of(sprm.operand@[0]),
        res is Err ==> res->Err_0.kind() == ErrorKind::InvalidSection,
{
    match first_byte(sprm)? {
        1 => Ok(PageOrientation::Portrait),
        2 => Ok(PageOrientation::Landscape),
        _ => Err(invalid_section("invalid sprmSBOrientation value")),
    }
}

/// A page dimension of 144 through 31680 twips.
fn page_dimension(sprm: &Sprm) -> (res: Result<u16>)
    ensures
        res is Ok <==> sprm.operand@.len() == 2 && 144 <= le_u16(sprm.operand@, 0) <= 31680,
        res matches Ok(v) ==> v == le_u16(sprm.operand@, 0),
        res is Err ==> res->Err_0.kind() == ErrorKind::InvalidSection,
{
    let value = section_word(sprm)?;
    if value < 144 || value > 31680 {
        return Err(invalid_section("page dimension is outside 144..=31680"));
    }
    Ok(value)
}

/// Applies one section SPRM.
#[verifier::rlimit(60)]
fn apply_section_sprm(geometry: &mut SectionGeometry, unsupported: &mut Vec<u16>, s: &Sprm) -> (res: Result<()>)
    ensures
        res is Ok <==> s.group == PropertyGroup::Section && section_operand_ok(s.opcode, s.operand@),
        res is Err ==> res->Err_0.kind() == ErrorKind::InvalidSection,
        res is Ok ==> final(geometry).break_code == (if (s.opcode == 0x3009) {
            Some(s.operand@[0])
        } else {
            old(geometry).break_code
        }),
        res is Ok ==> final(geometry).title_page == (if (s.opcode == 0x300A) {
            Some(s.operand@[0] == 1)
        } else {
            old(geometry).title_page
        }),
        res is Ok ==> final(geometry).orientation == (if (s.opcode == 0x301D) {
            Some(orientation_of(s.operand@[0]))
        } else {
            old(geometry).orientation
        }),
        res is Ok ==> final(geometry).page_width_twips == (if (s.opcode == 0xB01F) {
            Some(le_u16(s.operand@, 0))
        } else {
            old(geometry).page_width_twips
        }),
        res is Ok ==> final(geometry).page_height_twips == (if (s.opcode == 0xB020) {
            Some(le_u16(s.operand@, 0))
        } else {
            old(geometry).page_height_twips
        }),
        res is Ok ==> final(geometry).margin_left_twips == (if (s.opcode == 0xB021) {
            Some(le_u16(s.operand@, 0))
        } else {
            old(geometry).margin_left_twips
        }),
        res is Ok ==> final(geometry).margin_right_twips == (if (s.opcode == 0xB022) {
            Some(le_u16(s.operand@, 0))
        } else {
            old(geometry).margin_right_twips
        }),
        res is Ok ==> final(geometry).margin_top_twips == (if (s.opcode == 0x9023) {
            Some(le_u16(s.operand@, 0) as i16)
        } else {
            old(geometry).margin_top_twips
        }),
        res is Ok ==> final(geometry).margin_bottom_twips == (if (s.opcode == 0x9024) {
            Some(le_u16(s.operand@, 0) as i16)
        } else {
            old(geometry).margin_bottom_twips
        }),
        res is Ok ==> final(geometry).gutter_twips == (if (s.opcode == 0xB025) {
            Some(le_u16(s.operand@, 0))
        } else {
            old(geometry).gutter_twips
        }),
        res is Ok ==> final(geometry).header_distance_twips == (if (s.opcode == 0xB017) {
            Some(le_u16(s.operand@, 0))
        } else {
            old(geometry).header_distance_twips
        }),
        res is Ok ==> final(geometry).footer_distance_twips == (if (s.opcode == 0xB018) {
            Some(le_u16(s.operand@, 0))
        } else {
            old(geometry).footer_distance_twips
        }),
        res is Ok ==> final(geometry).column_count == (if (s.opcode == 0x500B) {
            Some((le_u16(s.operand@, 0) + 1) as u16)
        } else {
            old(geometry).column_count
        }),
        res is Ok ==> final(geometry).column_spacing_twips == (if (s.opcode == 0x900C) {
            Some(le_u16(s.operand@, 0))
        } else {
            old(geometry).column_spacing_twips
        }),
        res is Ok ==> final(geometry).evenly_spaced_columns == (if (s.opcode == 0x3005) {
            Some(s.operand@[0] == 1)
        } else {
            old(geometry).evenly_spaced_columns
        }),
        res is Ok ==> final(geometry).line_between_columns == (if (s.opcode == 0x3019) {
            Some(s.operand@[0] == 1)
        } else {
            old(geometry).line_between_columns
        }),
        res is Ok ==> final(geometry).bidi == (if (s.opcode == 0x3228) {
            Some(s.operand@[0] == 1)
        } else {
            old(geometry).bidi
        }),
        res is Ok ==> final(unsupported)@ == (if !section_known(s.opcode) {
            old(unsupported)@.push(s.opcode)
        } else {
            old(unsupported)@
        }),
{
    let sprm = s;
    if sprm.group != PropertyGroup::Section {
        return Err(invalid_section("SEPX contains a non-section SPRM"));
    }
    match sprm.opcode {
        0x3009 => {
            geometry.break_code = Some(first_byte(sprm)?);
        },
        0x300A => {
            geometry.title_page = Some(section_bool(sprm)?);
        },
        0x301D => {
            geometry.orientation = Some(orientation(sprm)?);
        },
        0xB01F => {
            geometry.page_width_twips = Some(page_dimension(sprm)?);
        },
        0xB020 => {
            geometry.page_height_twips = Some(page_dimension(sprm)?);
        },
        0xB021 => {
            geometry.margin_left_twips = Some(section_word(sprm)?);
        },
        0xB022 => {
            geometry.margin_right_twips = Some(section_word(sprm)?);
        },
        0x9023 => {
            geometry.margin_top_twips = Some(section_signed_word(sprm)?);
        },
        0x9024 => {
            geometry.margin_bottom_twips = Some(section_signed_word(sprm)?);
        },
        0xB025 => {
            geometry.gutter_twips = Some(section_word(sprm)?);
        },
        0xB017 => {
            geometry.header_distance_twips = Some(section_word(sprm)?);
        },
        0xB018 => {
            geometry.footer_distance_twips = Some(section_word(sprm)?);
        },
        0x500B => {
            geometry.column_count = Some(column_count(sprm)?);
        },
        0x900C => {
            geometry.column_spacing_twips = Some(section_word(sprm)?);
        },
        0x3005 => {
            geometry.evenly_spaced_columns = Some(section_bool(sprm)?);
        },
        0x3019 => {
            geometry.line_between_columns = Some(section_bool(sprm)?);
        },
        0x3228 => {
            geometry.bidi = Some(section_bool(sprm)?);
        },
        _ => {
            unsupported.push(sprm.opcode);
        },
    }
    Ok(())
}

/// Applies section SPRMs in source order: the geometry, last modifier winning,
/// and the opcodes that are not interpreted.
pub fn apply_section_properties(sprms: &[Sprm]) -> (res: Result<(SectionGeometry, Vec<u16>)>)
    ensures
        res is Ok <==> section_sprms_ok(sprms@),
        res is Err ==> res->Err_0.kind() == ErrorKind::InvalidSection,
        res matches Ok(r) ==> section_fields_match(r.0, sprms@, sprms@.len() as int) && r.1@
            == section_unknown_opcodes(sprms@, sprms@.len() as int),
{
    let mut geometry = SectionGeometry::default();
    let mut unsupported: Vec<u16> = Vec::new();
    assert(unsupported@ =~= section_unknown_opcodes(sprms@, 0));
    let mut i: usize = 0;
    while i < sprms.len()
        invariant
            i <= sprms@.len(),
            forall|j: int|
                0 <= j < i ==> (#[trigger] sprms@[j]).group == PropertyGroup::Section && section_operand_ok(
                    sprms@[j].opcode,
                    sprms@[j].operand@,
                ),
            section_fields_match(geometry, sprms@, i as int),
            unsupported@ == section_unknown_opcodes(sprms@, i as int),
        decreases sprms@.len() - i,
    {
        let ghost before = geometry;
        match apply_section_sprm(&mut geometry, &mut unsupported, &sprms[i]) {
            Ok(()) => {
                proof {
                    assert(section_step(before, geometry, sprms@[i as int]));
                    lemma_section_step(before, geometry, sprms@, i as int);
                }
            },
            Err(e) => {
                assert(!(sprms@[i as int].group == PropertyGroup::Section && section_operand_ok(
                    sprms@[i as int].opcode,
                    sprms@[i as int].operand@,
                )));
                return Err(e);
            },
        }
        i = i + 1;
    }
    Ok((geometry, unsupported))
}

// ---- SEPX.

/// The `grpprl` bytes of the SEPX at `fc` in `word`, or the failure kind;
/// `fc == -1` means no SEPX.
pub open spec fn sepx_bytes(word: Seq<u8>, fc: i32) -> Outcome<Seq<u8>> {
    if fc == -1 {
        Ok(seq![])
    } else if fc < 0 {
        Err(ErrorKind::InvalidSection)
    } else if fc + 2 > word.len() {
        Err(ErrorKind::OutOfBounds)
    } else {
        let length = le_u16(word, fc as int) as i16;
        if length < 0 {
            Err(ErrorKind::InvalidSection)
        } else if fc + 2 + length > word.len() {
            Err(ErrorKind::OutOfBounds)
        } else {
            let g = word.subrange(fc + 2, fc + 2 + length);
            if grpprl_frames(g, 0) is None {
                Err(ErrorKind::InvalidSection)
            } else {
                Ok(g)
            }
        }
    }
}

/// Reads and frames the SEPX at `fc_sepx`.
fn parse_sepx(word_document: &[u8], fc_sepx: i32) -> (res: Result<Vec<Sprm>>)
    ensures
        match sepx_bytes(word_document@, fc_sepx) {
            Err(e) => res is Err && res->Err_0.kind() == e,
            Ok(g) => res matches Ok(v) && sprms_are_frames(v@, grpprl_frames(g, 0).unwrap()),
        },
{
    if fc_sepx == -1 {
        assert(grpprl_frames(seq![], 0) == Some(Seq::<(u16, Seq<u8>)>::empty()));
        return Ok(Vec::new());
    }
    if fc_sepx < 0 {
        return Err(invalid_section("invalid negative fcSepx"));
    }
    let offset = fc_sepx as u32;
    let prefix = checked_slice(word_document, offset, 2, "Sepx.cb")?;
    let length = read_u16_le(prefix, 0) as i16;
    if length < 0 {
        return Err(invalid_section("Sepx has a negative grpprl length"));
    }
    let grpprl = checked_slice(word_document, offset + 2, length as u32, "Sepx.grpprl")?;
    match decode_grpprl(grpprl) {
        Ok(v) => Ok(v),
        Err(_) => Err(invalid_section("SEPX cannot be framed")),
    }
}

// ---- PLCFSED.

/// Number of sections in `PlcfSed` bytes `plc`.
pub open spec fn sed_count(plc: Seq<u8>) -> int {
    (plc.len() - 4) / 16
}

/// Section boundary CP `k`, as stored.
pub open spec fn sed_cp(plc: Seq<u8>, k: int) -> i32 {
    le_i32(plc, 4 * k)
}

/// The section boundary CPs.
pub open spec fn sed_cps(plc: Seq<u8>) -> Seq<u32> {
    Seq::new((sed_count(plc) + 1) as nat, |k: int| sed_cp(plc, k) as u32)
}

/// `fcSepx` of section descriptor `k`.
pub open spec fn sed_fc(plc: Seq<u8>, k: int) -> i32 {
    le_i32(plc, 4 * (sed_count(plc) + 1) + 12 * k + 2)
}

/// Why `PlcfSed` bytes `plc` are invalid for a main story of `main` CPs, if they are.
pub open spec fn plcfsed_failure(plc: Seq<u8>, main: u32, limits: DocLimits) -> Option<ErrorKind> {
    let count = sed_count(plc);
    let cps = sed_cps(plc);
    if plc.len() < 4 || (plc.len() - 4) % 16 != 0 || count == 0 {
        Some(ErrorKind::InvalidSection)
    } else if count > limits.max_sections {
        Some(ErrorKind::ResourceLimit)
    } else if (exists|k: int| 0 <= k <= count && #[trigger] sed_cp(plc, k) < 0) || cps[0] != 0
        || !strictly_increasing(cps) || cps[count] < main {
        Some(ErrorKind::InvalidSection)
    } else {
        None
    }
}

/// Why section `k` is invalid, if it is.
pub open spec fn section_check(word: Seq<u8>, plc: Seq<u8>, main: u32, k: int) -> Option<ErrorKind> {
    let cp = sed_cps(plc)[k];
    if cp >= main && !(k == 0 && main == 0) {
        Some(ErrorKind::InvalidSection)
    } else {
        match sepx_bytes(word, sed_fc(plc, k)) {
            Err(e) => Some(e),
            Ok(g) => if forall|i: int|
                0 <= i < grpprl_frames(g, 0).unwrap().len() ==> section_frame_ok(
                    #[trigger] grpprl_frames(g, 0).unwrap()[i],
                ) {
                None
            } else {
                Some(ErrorKind::InvalidSection)
            },
        }
    }
}

/// The checks of all sections.
pub open spec fn section_checks(word: Seq<u8>, plc: Seq<u8>, main: u32) -> Seq<Option<ErrorKind>> {
    Seq::new(sed_count(plc) as nat, |k: int| section_check(word, plc, main, k))
}

/// Whether `s` is section `k`: its CP range, its SEPX modifiers and their geometry.
pub open spec fn section_matches(s: Section, word: Seq<u8>, plc: Seq<u8>, main: u32, k: int) -> bool {
    let cps = sed_cps(plc);
    &&& s.cp_start == cps[k]
    &&& s.cp_end == if cps[k + 1] < main {
        cps[k + 1]
    } else {
        main
    }
    &&& sprms_are_frames(s.sprms@, grpprl_frames(sepx_bytes(word, sed_fc(plc, k))->Ok_0, 0).unwrap())
    &&& section_fields_match(s.geometry, s.sprms@, s.sprms@.len() as int)
    &&& s.unsupported_opcodes@ == section_unknown_opcodes(s.sprms@, s.sprms@.len() as int)
}

/// What `SectionTable::parse` gives for `fib`, `word` and `table`.
pub open spec fn section_table_result(
    fib: Fib,
    word: Seq<u8>,
    table: Seq<u8>,
    limits: DocLimits,
    res: Result<SectionTable>,
) -> bool {
    let l = fib.locations.spec_get(INDEX_PLCF_SED);
    let main = fib.stories.main;
    if l is None || l.unwrap().length == 0 {
        res matches Ok(t) && t.spec_sections().len() == 0
    } else if l.unwrap().offset + l.unwrap().length > table.len() {
        res is Err && res->Err_0.kind() == ErrorKind::OutOfBounds
    } else {
        let plc = table.subrange(l.unwrap().offset as int, l.unwrap().offset + l.unwrap().length);
        match plcfsed_failure(plc, main, limits) {
            Some(e) => res is Err && res->Err_0.kind() == e,
            None => match first_failure(section_checks(word, plc, main), sed_count(plc)) {
                Some(e) => res is Err && res->Err_0.kind() == e,
                None => res matches Ok(t) && t.spec_sections().len() == sed_count(plc) && forall|k: int|
                    0 <= k < sed_count(plc) ==> #[trigger] section_matches(t.spec_sections()[k], word, plc, main, k),
            },
        }
    }
}

/// The number of sections that `SectionTable::parse` finds, or the kind of
/// its failure.
pub open spec fn section_count_outcome(fib: Fib, word: Seq<u8>, table: Seq<u8>, limits: DocLimits) -> Outcome<int> {
    let l = fib.locations.spec_get(INDEX_PLCF_SED);
    let main = fib.stories.main;
    if l is None || l.unwrap().length == 0 {
        Ok(0)
    } else if l.unwrap().offset + l.unwrap().length > table.len() {
        Err(ErrorKind::OutOfBounds)
    } else {
        let plc = table.subrange(l.unwrap().offset as int, l.unwrap().offset + l.unwrap().length);
        match plcfsed_failure(plc, main, limits) {
            Some(e) => Err(e),
            None => match first_failure(section_checks(word, plc, main), sed_count(plc)) {
                Some(e) => Err(e),
                None => Ok(sed_count(plc)),
            },
        }
    }
}

/// A parsed section table has as many sections as the outcome counts, and a
/// failure has the outcome's kind.
pub proof fn lemma_section_count(fib: Fib, word: Seq<u8>, table: Seq<u8>, limits: DocLimits, res: Result<SectionTable>)
    requires
        section_table_result(fib, word, table, limits, res),
    ensures
        match section_count_outcome(fib, word, table, limits) {
            Ok(n) => res matches Ok(t) && t.spec_sections().len() == n,
            Err(e) => res is Err && res->Err_0.kind() == e,
        },
{
}

/// Ordered main-document sections.
#[derive(Debug, Clone, PartialEq, Eq)]
pub struct SectionTable {
    sections: Vec<Section>,
}

impl SectionTable {
    /// The sections in main-story order.
    pub closed spec fn spec_sections(&self) -> Seq<Section> {
        self.sections@
    }

    /// Parses the FIB-referenced PLCFSED and all source-backed SEPX records.
    #[verifier::rlimit(60)]
    pub fn parse(fib: &Fib, word_document: &[u8], table_stream: &[u8], limits: DocLimits) -> (res: Result<Self>)
        ensures
            section_table_result(*fib, word_document@, table_stream@, limits, res),
    {
        let location = match fib.locations.sections() {
            Some(l) => if l.is_empty() {
                return Ok(SectionTable { sections: Vec::new() });
            } else {
                l
            },
            None => {
                return Ok(SectionTable { sections: Vec::new() });
            },
        };
        let plc = checked_slice(table_stream, location.offset, location.length, "PlcfSed")?;
        let len = plc.len();
        let main = fib.stories.main;
        if len < 4 || (len - 4) % 16 != 0 || (len - 4) / 16 == 0 {
            return Err(invalid_section("PlcfSed length is not 4 + 16*n with n > 0"));
        }
        let count = (len - 4) / 16;
        if count > limits.max_sections {
            return Err(
                DocError::ResourceLimit { resource: "section", actual: count as u64, limit: limits.max_sections as u64 },
            );
        }
        let cps = read_section_cps(plc, count)?;
        if cps[0] != 0 || !crate::plc::is_strictly_increasing(cps.as_slice()) || cps[count] < main {
            return Err(invalid_section("PlcfSed CP boundaries must start at zero, increase strictly and reach the main story end"));
        }
        let ghost p = plc@;
        let ghost checks = section_checks(word_document@, p, main);
        assert(plcfsed_failure(p, main, limits) is None);
        let mut sections: Vec<Section> = Vec::new();
        let mut index: usize = 0;
        while index < count
            invariant
                p == plc@,
                fib.locations.spec_get(INDEX_PLCF_SED) == Some(location),
                location.length != 0,
                location.offset + location.length <= table_stream@.len(),
                p == table_stream@.subrange(location.offset as int, location.offset + location.length),
                plcfsed_failure(p, main, limits) is None,
                main == fib.stories.main,
                len == p.len(),
                count == sed_count(p),
                count >= 1,
                len == 4 + 16 * count,
                cps@ == sed_cps(p),
                checks == section_checks(word_document@, p, main),
                index <= count,
                first_failure(checks, index as int) is None,
                sections@.len() == index,
                forall|k: int| 0 <= k < index ==> #[trigger] section_matches(sections@[k], word_document@, p, main, k),
            decreases count - index,
        {
            let cp_start = cps[index];
            if cp_start >= main && !(index == 0 && main == 0) {
                proof {
                    assert(first_failure(checks, index as int + 1) == checks[index as int]);
                    lemma_first_failure_persists(checks, index as int + 1, count as int);
                }
                return Err(invalid_section("section starts outside the main story"));
            }
            let sed_start = 4 * (count + 1) + index * SED_SIZE;
            let fc_sepx = read_i32_le(plc, sed_start + 2);
            let sprms = match parse_sepx(word_document, fc_sepx) {
                Ok(v) => v,
                Err(e) => {
                    proof {
                        assert(first_failure(checks, index as int + 1) == checks[index as int]);
                        lemma_first_failure_persists(checks, index as int + 1, count as int);
                    }
                    return Err(e);
                },
            };
            let (geometry, unsupported_opcodes) = match apply_section_properties(sprms.as_slice()) {
                Ok(r) => r,
                Err(e) => {
                    proof {
                        let g = sepx_bytes(word_document@, fc_sepx)->Ok_0;
                        let fr = grpprl_frames(g, 0).unwrap();
                        let j = choose|j: int|
                            0 <= j < sprms@.len() && !((#[trigger] sprms@[j]).group == PropertyGroup::Section
                                && section_operand_ok(sprms@[j].opcode, sprms@[j].operand@));
                        assert(sprms@[j].is_frame(fr[j]));
                        assert(!section_frame_ok(fr[j]));
                        assert(first_failure(checks, index as int + 1) == checks[index as int]);
                        lemma_first_failure_persists(checks, index as int + 1, count as int);
                    }
                    return Err(e);
                },
            };
            proof {
                let g = sepx_bytes(word_document@, fc_sepx)->Ok_0;
                let fr = grpprl_frames(g, 0).unwrap();
                assert forall|i: int| 0 <= i < fr.len() implies section_frame_ok(#[trigger] fr[i]) by {
                    assert(sprms@[i].is_frame(fr[i]));
                    assert(sprms@[i].group == PropertyGroup::Section);
                }
                assert(checks[index as int] is None);
            }
            let cp_end = if cps[index + 1] < main {
                cps[index + 1]
            } else {
                main
            };
            sections.push(Section { cp_start, cp_end, sprms, geometry, unsupported_opcodes });
            proof {
                assert(section_matches(sections@[index as int], word_document@, p, main, index as int));
            }
            index = index + 1;
        }
        Ok(SectionTable { sections })
    }

    /// Sections in main-story order.
    pub fn sections(&self) -> (res: &[Section])
        ensures
            res@ == self.spec_sections(),
    {
        self.sections.as_slice()
    }

    /// Whether the table contains no section descriptors.
    pub fn is_empty(&self) -> (res: bool)
        ensures
            res == (self.spec_sections().len() == 0),
    {
        self.sections.len() == 0
    }

    /// Number of sections.
    pub fn len(&self) -> (res: usize)
        ensures
            res == self.spec_sections().len(),
    {
        self.sections.len()
    }
}

/// Reads the `count + 1` section boundary CPs; none may be negative.
fn read_section_cps(plc: &[u8], count: usize) -> (res: Result<Vec<u32>>)
    requires
        plc@.len() == 4 + 16 * count,
    ensures
        res is Ok <==> forall|k: int| 0 <= k <= count ==> #[trigger] sed_cp(plc@, k) >= 0,
        res matches Ok(v) ==> v@ == sed_cps(plc@),
        res is Err ==> res->Err_0.kind() == ErrorKind::InvalidSection,
{
    let ghost expected = sed_cps(plc@);
    let len = plc.len();
    let mut cps: Vec<u32> = Vec::new();
    let mut k: usize = 0;
    while k <= count
        invariant
            len == plc@.len(),
            plc@.len() == 4 + 16 * count,
            count == sed_count(plc@),
            expected == sed_cps(plc@),
            k <= count + 1,
            cps@ == expected.take(k as int),
            forall|j: int| 0 <= j < k ==> #[trigger] sed_cp(plc@, j) >= 0,
        decreases count + 1 - k,
    {
        let cp = read_i32_le(plc, 4 * k);
        if cp < 0 {
            assert(sed_cp(plc@, k as int) < 0);
            return Err(invalid_section("PlcfSed contains a negative CP"));
        }
        cps.push(cp as u32);
        assert(cps@ =~= expected.take(k as int + 1));
        k = k + 1;
    }
    assert(cps@ =~= expected);
    Ok(cps)
}

} // verus!

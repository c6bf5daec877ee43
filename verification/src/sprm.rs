//! Version-independent Word 97+ SPRM framing.

use vstd::prelude::*;

use crate::binary::{le_u16, read_u16_le};
use crate::error::{DocError, ErrorKind, Result, message};

verus! {

/// Opcode of `sprmTDefTable`, whose operand has a two-byte length prefix.
pub const SPRM_T_DEF_TABLE: u16 = 0xD608;

/// Opcode of `sprmPChgTabs`, whose length byte `0xFF` selects a counted layout.
pub const SPRM_P_CHG_TABS: u16 = 0xC615;

/// Document property family modified by an SPRM.
#[derive(Debug, Clone, Copy, PartialEq, Eq, Structural)]
pub enum PropertyGroup {
    /// Paragraph property.
    Paragraph,
    /// Character property.
    Character,
    /// Picture property.
    Picture,
    /// Section property.
    Section,
    /// Table property.
    Table,
}

/// One exactly framed property modifier and its raw operand.
#[derive(Debug, Clone, PartialEq, Eq)]
pub struct Sprm {
    /// Complete 16-bit opcode.
    pub opcode: u16,
    /// Property identifier inside its group.
    pub property_id: u16,
    /// Special-operand flag from the opcode.
    pub special: bool,
    /// Property family.
    pub group: PropertyGroup,
    /// Operand bytes, including a variable-length prefix where applicable.
    pub operand: Vec<u8>,
}

/// The property family selected by bits 10..13 of an opcode.
pub open spec fn sprm_group(opcode: u16) -> Option<PropertyGroup> {
    let bits = (opcode >> 10u16) & 7u16;
    if bits == 1 {
        Some(PropertyGroup::Paragraph)
    } else if bits == 2 {
        Some(PropertyGroup::Character)
    } else if bits == 3 {
        Some(PropertyGroup::Picture)
    } else if bits == 4 {
        Some(PropertyGroup::Section)
    } else if bits == 5 {
        Some(PropertyGroup::Table)
    } else {
        None
    }
}

/// The operand-size code (`spra`) in bits 13..16 of an opcode.
pub open spec fn sprm_spra(opcode: u16) -> u16 {
    (opcode >> 13u16) & 7u16
}

/// Length of the counted `sprmPChgTabs` operand whose length byte is at `offset`.
pub open spec fn spec_extended_tabs_length(s: Seq<u8>, offset: int) -> Option<int> {
    if offset + 1 >= s.len() {
        None
    } else {
        let deletes = s[offset + 1] as int;
        let add_offset = offset + 2 + 4 * deletes;
        if deletes > 64 || add_offset >= s.len() {
            None
        } else {
            let adds = s[add_offset] as int;
            if adds > 64 {
                None
            } else {
                Some(3 + 4 * deletes + 3 * adds)
            }
        }
    }
}

/// Operand length of an SPRM with `opcode` whose operand starts at `offset`.
pub open spec fn spec_operand_length(s: Seq<u8>, offset: int, opcode: u16) -> Option<int> {
    let spra = sprm_spra(opcode);
    if spra == 0 || spra == 1 {
        Some(1)
    } else if spra == 2 || spra == 4 || spra == 5 {
        Some(2)
    } else if spra == 3 {
        Some(4)
    } else if spra == 7 {
        Some(3)
    } else if opcode == SPRM_T_DEF_TABLE {
        if offset + 2 > s.len() || le_u16(s, offset) == 0 {
            None
        } else {
            Some(le_u16(s, offset) + 1)
        }
    } else if offset >= s.len() {
        None
    } else if opcode == SPRM_P_CHG_TABS && s[offset] == 0xFF {
        spec_extended_tabs_length(s, offset)
    } else {
        Some(s[offset] + 1)
    }
}

/// The `(opcode, operand)` frames of `s` from byte `offset`, or `None` when
/// the bytes cannot be framed exactly.
pub open spec fn grpprl_frames(s: Seq<u8>, offset: int) -> Option<Seq<(u16, Seq<u8>)>>
    decreases s.len() - offset,
{
    if offset < 0 || offset >= s.len() {
        Some(seq![])
    } else if offset + 2 > s.len() || sprm_group(le_u16(s, offset)) is None {
        None
    } else {
        let opcode = le_u16(s, offset);
        match spec_operand_length(s, offset + 2, opcode) {
            None => None,
            Some(n) => if n < 1 || offset + 2 + n > s.len() {
                None
            } else {
                match grpprl_frames(s, offset + 2 + n) {
                    None => None,
                    Some(rest) => Some(
                        seq![(opcode, s.subrange(offset + 2, offset + 2 + n))] + rest,
                    ),
                }
            },
        }
    }
}

impl Sprm {
    /// Whether this record is the frame `(opcode, operand)` with its derived fields.
    pub open spec fn is_frame(&self, frame: (u16, Seq<u8>)) -> bool {
        &&& self.opcode == frame.0
        &&& self.property_id == frame.0 & 0x01FF
        &&& self.special == (frame.0 & 0x0200 != 0)
        &&& sprm_group(frame.0) == Some(self.group)
        &&& self.operand@ == frame.1
    }

    /// A copy with equal fields and operand bytes.
    pub fn duplicate(&self) -> (res: Sprm)
        ensures
            res.opcode == self.opcode,
            res.property_id == self.property_id,
            res.special == self.special,
            res.group == self.group,
            res.operand@ == self.operand@,
    {
        Sprm {
            opcode: self.opcode,
            property_id: self.property_id,
            special: self.special,
            group: self.group,
            operand: self.operand.clone(),
        }
    }
}

/// Whether `sprms` are exactly `frames`, in order.
pub open spec fn sprms_are_frames(sprms: Seq<Sprm>, frames: Seq<(u16, Seq<u8>)>) -> bool {
    &&& sprms.len() == frames.len()
    &&& forall|i: int| 0 <= i < sprms.len() ==> #[trigger] sprms[i].is_frame(frames[i])
}

/// The frames of `sprms`.
pub open spec fn frames_of(sprms: Seq<Sprm>) -> Seq<(u16, Seq<u8>)> {
    Seq::new(sprms.len(), |i: int| (sprms[i].opcode, sprms[i].operand@))
}

pub fn property_group(opcode: u16) -> (res: Option<PropertyGroup>)
    ensures
        res == sprm_group(opcode),
{
    let bits = (opcode >> 10u16) & 7u16;
    if bits == 1 {
        Some(PropertyGroup::Paragraph)
    } else if bits == 2 {
        Some(PropertyGroup::Character)
    } else if bits == 3 {
        Some(PropertyGroup::Picture)
    } else if bits == 4 {
        Some(PropertyGroup::Section)
    } else if bits == 5 {
        Some(PropertyGroup::Table)
    } else {
        None
    }
}

/// Decodes a complete `grpprl` into exactly bounded SPRM records.
///
/// This function frames operands but deliberately does not invent semantics for
/// unknown opcodes.
pub fn decode_grpprl(data: &[u8]) -> (res: Result<Vec<Sprm>>)
    ensures
        res is Ok <==> grpprl_frames(data@, 0) is Some,
        res matches Ok(v) ==> sprms_are_frames(v@, grpprl_frames(data@, 0).unwrap()),
        res is Err ==> res->Err_0.kind() == ErrorKind::InvalidFormatting,
{
    let ghost s = data@;
    let mut offset: usize = 0;
    let mut result: Vec<Sprm> = Vec::new();
    while offset < data.len()
        invariant
            s == data@,
            offset <= data@.len(),
            grpprl_frames(s, 0) is Some <==> grpprl_frames(s, offset as int) is Some,
            grpprl_frames(s, offset as int) is Some ==> grpprl_frames(s, 0).unwrap()
                == frames_of(result@) + grpprl_frames(s, offset as int).unwrap(),
            forall|i: int|
                0 <= i < result@.len() ==> #[trigger] result@[i].is_frame(frames_of(result@)[i]),
        decreases data@.len() - offset,
    {
        if data.len() - offset < 2 {
            return Err(DocError::InvalidFormatting(message("truncated SPRM opcode")));
        }
        let opcode = read_u16_le(data, offset);
        let group = match property_group(opcode) {
            Some(group) => group,
            None => {
                return Err(DocError::InvalidFormatting(message("SPRM has an invalid property group")));
            },
        };
        let spra = (opcode >> 13u16) & 7u16;
        let operand_start = offset + 2;
        let length = operand_length(data, operand_start, opcode, spra)?;
        if length > data.len() - operand_start {
            return Err(DocError::InvalidFormatting(message("SPRM operand exceeds grpprl length")));
        }
        let operand_end = operand_start + length;
        let operand = vstd::slice::slice_to_vec(&data[operand_start..operand_end]);
        let ghost before = result@;
        result.push(
            Sprm {
                opcode,
                property_id: opcode & 0x01FF,
                special: opcode & 0x0200 != 0,
                group,
                operand,
            },
        );
        proof {
            let frame = (opcode, s.subrange(operand_start as int, operand_end as int));
            assert(frames_of(result@) =~= frames_of(before).push(frame));
            assert(grpprl_frames(s, offset as int) is Some ==> grpprl_frames(s, offset as int).unwrap()
                == seq![frame] + grpprl_frames(s, operand_end as int).unwrap());
            if grpprl_frames(s, operand_end as int) is Some {
                assert(frames_of(before) + (seq![frame] + grpprl_frames(
                    s,
                    operand_end as int,
                ).unwrap()) =~= frames_of(result@) + grpprl_frames(
                    s,
                    operand_end as int,
                ).unwrap());
            }
        }
        offset = operand_end;
    }
    proof {
        assert(frames_of(result@) + seq![] =~= frames_of(result@));
    }
    Ok(result)
}

/// Operand length of the SPRM with `opcode` whose operand starts at `offset`.
pub fn operand_length(data: &[u8], offset: usize, opcode: u16, spra: u16) -> (res: Result<usize>)
    requires
        spra == sprm_spra(opcode),
        offset <= data@.len(),
    ensures
        res is Ok <==> spec_operand_length(data@, offset as int, opcode) is Some,
        res is Ok ==> res->Ok_0 == spec_operand_length(data@, offset as int, opcode).unwrap(),
        res is Err ==> res->Err_0.kind() == ErrorKind::InvalidFormatting,
{
    if spra == 0 || spra == 1 {
        Ok(1)
    } else if spra == 2 || spra == 4 || spra == 5 {
        Ok(2)
    } else if spra == 3 {
        Ok(4)
    } else if spra == 7 {
        Ok(3)
    } else if opcode == SPRM_T_DEF_TABLE {
        if data.len() - offset < 2 {
            return Err(DocError::InvalidFormatting(message("truncated sprmTDefTable length")));
        }
        let cb = read_u16_le(data, offset) as usize;
        if cb == 0 {
            return Err(DocError::InvalidFormatting(message("sprmTDefTable length is zero")));
        }
        Ok(cb + 1)
    } else if offset >= data.len() {
        Err(DocError::InvalidFormatting(message("truncated variable SPRM length")))
    } else if opcode == SPRM_P_CHG_TABS && data[offset] == 0xFF {
        extended_p_chg_tabs_length(data, offset)
    } else {
        Ok(data[offset] as usize + 1)
    }
}

/// Length of a counted `sprmPChgTabs` operand (`PChgTabsDelClose` followed by
/// `PChgTabsAdd`), including its length byte and both count bytes.
pub fn extended_p_chg_tabs_length(data: &[u8], offset: usize) -> (res: Result<usize>)
    requires
        offset < data@.len(),
    ensures
        res is Ok <==> spec_extended_tabs_length(data@, offset as int) is Some,
        res is Ok ==> res->Ok_0 == spec_extended_tabs_length(data@, offset as int).unwrap(),
        res is Err ==> res->Err_0.kind() == ErrorKind::InvalidFormatting,
{
    if data.len() - offset <= 1 {
        return Err(DocError::InvalidFormatting(message("truncated extended sprmPChgTabs delete count")));
    }
    let delete_count = data[offset + 1] as usize;
    if delete_count > 64 {
        return Err(DocError::InvalidFormatting(message("extended sprmPChgTabs delete count exceeds 64")));
    }
    if 2 + 4 * delete_count >= data.len() - offset {
        return Err(DocError::InvalidFormatting(message("truncated extended sprmPChgTabs add count")));
    }
    let add_count = data[offset + 2 + 4 * delete_count] as usize;
    if add_count > 64 {
        return Err(DocError::InvalidFormatting(message("extended sprmPChgTabs add count exceeds 64")));
    }
    Ok(3 + 4 * delete_count + 3 * add_count)
}

/// Operand lengths read past a prefix are those read in the rest.
proof fn lemma_operand_length_shift(p: Seq<u8>, b: Seq<u8>, o: int, opcode: u16)
    requires
        0 <= o,
    ensures
        spec_operand_length(p + b, p.len() + o, opcode) == spec_operand_length(b, o, opcode),
{
    let s = p + b;
    let x = p.len() + o;
    if o < b.len() {
        assert(s[x] == b[o]);
    }
    if o + 1 < b.len() {
        assert(s[x + 1] == b[o + 1]);
        assert(le_u16(s, x) == le_u16(b, o));
        let add = o + 2 + 4 * (b[o + 1] as int);
        if add < b.len() {
            assert(s[p.len() + add] == b[add]);
        }
    }
}

/// The frames read past a prefix are those read in the rest.
proof fn lemma_frames_shift(p: Seq<u8>, b: Seq<u8>, o: int)
    requires
        0 <= o,
    ensures
        grpprl_frames(p + b, p.len() + o) == grpprl_frames(b, o),
    decreases b.len() - o,
{
    let s = p + b;
    let x = p.len() + o;
    if o < b.len() && o + 2 <= b.len() {
        assert(s[x] == b[o] && s[x + 1] == b[o + 1]);
        assert(le_u16(s, x) == le_u16(b, o));
        let opcode = le_u16(b, o);
        lemma_operand_length_shift(p, b, o + 2, opcode);
        if let Some(n) = spec_operand_length(b, o + 2, opcode) {
            if n >= 1 && o + 2 + n <= b.len() {
                lemma_frames_shift(p, b, o + 2 + n);
                assert(s.subrange(x + 2, x + 2 + n) =~= b.subrange(o + 2, o + 2 + n));
            }
        }
    }
}

/// An operand length that can be read within `a` is read the same within `a + b`.
proof fn lemma_operand_length_prefix(a: Seq<u8>, b: Seq<u8>, x: int, opcode: u16)
    requires
        0 <= x,
        spec_operand_length(a, x, opcode) is Some,
    ensures
        spec_operand_length(a + b, x, opcode) == spec_operand_length(a, x, opcode),
{
    let s = a + b;
    if x < a.len() {
        assert(s[x] == a[x]);
    }
    if x + 1 < a.len() {
        assert(s[x + 1] == a[x + 1]);
        assert(le_u16(s, x) == le_u16(a, x));
        let add = x + 2 + 4 * (a[x + 1] as int);
        if add < a.len() {
            assert(s[add] == a[add]);
        }
    }
}

/// Frames of a decodable part followed by a decodable rest.
proof fn lemma_frames_prefix(a: Seq<u8>, b: Seq<u8>, o: int)
    requires
        0 <= o <= a.len(),
        grpprl_frames(a, o) is Some,
        grpprl_frames(b, 0) is Some,
    ensures
        grpprl_frames(a + b, o) == Some(grpprl_frames(a, o).unwrap() + grpprl_frames(b, 0).unwrap()),
    decreases a.len() - o,
{
    let s = a + b;
    if o == a.len() {
        lemma_frames_shift(a, b, 0);
        assert(grpprl_frames(a, o).unwrap() + grpprl_frames(b, 0).unwrap() =~= grpprl_frames(b, 0).unwrap());
    } else {
        assert(s[o] == a[o] && s[o + 1] == a[o + 1]);
        assert(le_u16(s, o) == le_u16(a, o));
        let opcode = le_u16(a, o);
        lemma_operand_length_prefix(a, b, o + 2, opcode);
        let n = spec_operand_length(a, o + 2, opcode).unwrap();
        lemma_frames_prefix(a, b, o + 2 + n);
        assert(s.subrange(o + 2, o + 2 + n) =~= a.subrange(o + 2, o + 2 + n));
        let frame = seq![(opcode, a.subrange(o + 2, o + 2 + n))];
        let rest = grpprl_frames(a, o + 2 + n).unwrap();
        let tail = grpprl_frames(b, 0).unwrap();
        assert(frame + (rest + tail) =~= (frame + rest) + tail);
    }
}

/// A `grpprl` made of two decodable parts decodes, into the frames of the first
/// part followed by those of the second.
pub proof fn lemma_grpprl_concat(a: Seq<u8>, b: Seq<u8>)
    requires
        grpprl_frames(a, 0) is Some,
        grpprl_frames(b, 0) is Some,
    ensures
        grpprl_frames(a + b, 0) == Some(grpprl_frames(a, 0).unwrap() + grpprl_frames(b, 0).unwrap()),
{
    lemma_frames_prefix(a, b, 0);
}

/// The bytes that frames `f` take: two opcode bytes and the operand of each.
pub open spec fn frames_size(f: Seq<(u16, Seq<u8>)>) -> int
    decreases f.len(),
{
    if f.len() == 0 {
        0
    } else {
        2 + f[0].1.len() + frames_size(f.drop_first())
    }
}

/// The bytes that SPRMs `v` take: two opcode bytes and the operand of each.
pub open spec fn sprms_size(v: Seq<Sprm>) -> int
    decreases v.len(),
{
    if v.len() == 0 {
        0
    } else {
        2 + v[0].operand@.len() + sprms_size(v.drop_first())
    }
}

/// The frames read from byte `o` cover the rest of the bytes exactly.
proof fn lemma_frames_cover(s: Seq<u8>, o: int)
    requires
        0 <= o <= s.len(),
        grpprl_frames(s, o) is Some,
    ensures
        frames_size(grpprl_frames(s, o).unwrap()) == s.len() - o,
    decreases s.len() - o,
{
    if o < s.len() {
        let opcode = le_u16(s, o);
        let n = spec_operand_length(s, o + 2, opcode).unwrap();
        lemma_frames_cover(s, o + 2 + n);
        let f = grpprl_frames(s, o).unwrap();
        assert(f.drop_first() =~= grpprl_frames(s, o + 2 + n).unwrap());
    }
}

/// SPRMs that are frames take as many bytes as the frames.
proof fn lemma_sprms_size(v: Seq<Sprm>, f: Seq<(u16, Seq<u8>)>)
    requires
        sprms_are_frames(v, f),
    ensures
        sprms_size(v) == frames_size(f),
    decreases v.len(),
{
    if v.len() > 0 {
        assert(v[0].is_frame(f[0]));
        assert forall|i: int| 0 <= i < v.drop_first().len() implies #[trigger] v.drop_first()[i].is_frame(
            f.drop_first()[i],
        ) by {
            assert(v[i + 1].is_frame(f[i + 1]));
        }
        lemma_sprms_size(v.drop_first(), f.drop_first());
    }
}

/// The SPRMs decoded from a `grpprl` take exactly its bytes, each as two
/// opcode bytes and its operand, and each carries the property id, special
/// flag and family that its opcode selects.
pub proof fn lemma_decoded_sprms_cover(data: Seq<u8>, sprms: Seq<Sprm>)
    requires
        grpprl_frames(data, 0) is Some,
        sprms_are_frames(sprms, grpprl_frames(data, 0).unwrap()),
    ensures
        sprms_size(sprms) == data.len(),
        forall|i: int|
            0 <= i < sprms.len() ==> (#[trigger] sprms[i]).property_id == sprms[i].opcode & 0x01FF && sprms[i].special
                == (sprms[i].opcode & 0x0200 != 0) && sprm_group(sprms[i].opcode) == Some(sprms[i].group),
{
    lemma_frames_cover(data, 0);
    lemma_sprms_size(sprms, grpprl_frames(data, 0).unwrap());
    assert forall|i: int| 0 <= i < sprms.len() implies (#[trigger] sprms[i]).property_id == sprms[i].opcode & 0x01FF
        && sprms[i].special == (sprms[i].opcode & 0x0200 != 0) && sprm_group(sprms[i].opcode) == Some(sprms[i].group) by {
        assert(sprms[i].is_frame(grpprl_frames(data, 0).unwrap()[i]));
    }
}

} // verus!

//! `SttbfFfn` and source font metadata parsing.

use vstd::prelude::*;

use crate::binary::{checked_slice, le_u16, read_u16_le};
use crate::error::{DocError, ErrorKind, Result, message};
use crate::fib::{Fib, INDEX_STTBF_FFN};
use crate::limits::DocLimits;
use crate::text::{decode_utf16, utf16_strict, valid_utf16};

verus! {

/// Size of the fixed part of an FFN record.
pub const FFN_FIXED_SIZE: usize = 39;

/// One source font record addressed by `ftc` values in character properties.
#[derive(Debug, Clone, PartialEq, Eq)]
pub struct FontEntry {
    pub index: u16,
    /// Raw FFID family/pitch flags.
    pub family_id: u8,
    /// Visual weight in the source record (400 normal, 700 bold).
    pub weight: i16,
    /// Windows character-set identifier.
    pub charset: u8,
    pub name: String,
    pub alternate_name: Option<String>,
    pub panose: [u8; 10],
    pub signature: [u8; 24],
}

/// Ordered font table from the document.
#[derive(Debug, Clone, Default, PartialEq, Eq)]
pub struct FontTable {
    fonts: Vec<FontEntry>,
}

/// Windows character sets accepted in an FFN.
pub open spec fn known_charset(c: u8) -> bool {
    c == 0 || c == 1 || c == 2 || c == 77 || c == 128 || c == 129 || c == 130 || c == 134 || c
        == 136 || c == 161 || c == 162 || c == 163 || c == 177 || c == 178 || c == 186 || c == 204
        || c == 222 || c == 238 || c == 255
}

/// The UTF-16 name units of FFN bytes `e`.
pub open spec fn ffn_units(e: Seq<u8>) -> Seq<u16> {
    Seq::new(((e.len() - 39) / 2) as nat, |i: int| le_u16(e, 39 + 2 * i))
}

/// Index of the first zero unit of `u` at or after `from`.
pub open spec fn first_zero_from(u: Seq<u16>, from: int) -> Option<int>
    decreases u.len() - from,
{
    if from < 0 || from >= u.len() {
        None
    } else if u[from] == 0 {
        Some(from)
    } else {
        first_zero_from(u, from + 1)
    }
}

/// Signed little-endian `i16` at byte `i`.
pub open spec fn le_i16(s: Seq<u8>, i: int) -> i16 {
    let u = le_u16(s, i) as int;
    if u < 0x8000 {
        u as i16
    } else {
        (u - 0x10000) as i16
    }
}

/// Whether name units `u` hold a non-empty primary name and, when `alt` is
/// non-zero, an alternate name starting at unit `alt`, each terminated and
/// well-formed, with nothing after the last terminator.
pub open spec fn ffn_names_valid(u: Seq<u16>, alt: int) -> bool {
    first_zero_from(u, 0) matches Some(name_end) && {
        &&& name_end > 0
        &&& valid_utf16(u.subrange(0, name_end))
        &&& if alt == 0 {
            name_end + 1 == u.len()
        } else {
            &&& alt == name_end + 1 && alt < u.len()
            &&& first_zero_from(u, alt) matches Some(alt_end) && alt_end > alt && alt_end + 1
                == u.len() && valid_utf16(u.subrange(alt, alt_end))
        }
    }
}

/// Whether `name` and `alternate` are the names held by valid units `u`.
pub open spec fn ffn_names_decoded(u: Seq<u16>, alt: int, name: String, alternate: Option<String>) -> bool {
    let name_end = first_zero_from(u, 0).unwrap();
    &&& name@ == utf16_strict(u.subrange(0, name_end)).unwrap()
    &&& if alt == 0 {
        alternate is None
    } else {
        alternate matches Some(a) && a@ == utf16_strict(
            u.subrange(alt, first_zero_from(u, alt).unwrap()),
        ).unwrap()
    }
}

/// Whether FFN bytes `e` describe a valid font record.
pub open spec fn ffn_valid(e: Seq<u8>) -> bool {
    &&& e.len() >= 41 && (e.len() - 39) % 2 == 0
    &&& 0 <= le_i16(e, 1) <= 1000
    &&& known_charset(e[3])
    &&& ffn_names_valid(ffn_units(e), e[4] as int)
}

impl FontEntry {
    /// Whether this entry is font `index` decoded from valid FFN bytes `e`.
    pub open spec fn decoded_from(&self, index: u16, e: Seq<u8>) -> bool {
        &&& self.index == index
        &&& self.family_id == e[0]
        &&& self.weight == le_i16(e, 1)
        &&& self.charset == e[3]
        &&& self.panose@ == e.subrange(5, 15)
        &&& self.signature@ == e.subrange(15, 39)
        &&& ffn_names_decoded(ffn_units(e), e[4] as int, self.name, self.alternate_name)
    }
}

/// Offset of the length byte of FFN `k` in `SttbfFfn` bytes `d`.
pub open spec fn ffn_offset(d: Seq<u8>, k: int) -> int
    decreases k,
{
    if k <= 0 {
        4
    } else {
        let o = ffn_offset(d, k - 1);
        o + 1 + d[o] as int
    }
}

/// The bytes of FFN record `k` (after its length byte).
pub open spec fn ffn_bytes(d: Seq<u8>, k: int) -> Seq<u8> {
    let o = ffn_offset(d, k);
    d.subrange(o + 1, o + 1 + d[o] as int)
}

/// Whether the first `k` FFN records of `d` are framed within `d` and valid.
pub open spec fn ffns_valid(d: Seq<u8>, k: int) -> bool {
    forall|j: int|
        0 <= j < k ==> {
            let o = #[trigger] ffn_offset(d, j);
            &&& o < d.len()
            &&& o + 1 + d[o] as int <= d.len()
            &&& ffn_valid(d.subrange(o + 1, o + 1 + d[o] as int))
        }
}

/// Number of fonts declared by `SttbfFfn` bytes `d`.
pub open spec fn sttbf_count(d: Seq<u8>) -> int {
    le_u16(d, 0) as int
}

/// Whether `d` exceeds the font budget (checked before any record).
pub open spec fn sttbf_over_budget(d: Seq<u8>, limits: DocLimits) -> bool {
    &&& d.len() >= 2
    &&& !(d[0] == 0xFF && d[1] == 0xFF)
    &&& (sttbf_count(d) > 0x7FF0 || sttbf_count(d) > limits.max_fonts)
}

/// Whether `SttbfFfn` bytes `d` form a valid font table.
pub open spec fn sttbf_valid(d: Seq<u8>, limits: DocLimits) -> bool {
    &&& d.len() >= 4
    &&& !(d[0] == 0xFF && d[1] == 0xFF)
    &&& !sttbf_over_budget(d, limits)
    &&& le_u16(d, 2) == 0
    &&& ffns_valid(d, sttbf_count(d))
    &&& ffn_offset(d, sttbf_count(d)) == d.len()
}

/// What parsing the font table of `fib` in `table` yields.
pub open spec fn font_table_result(fib: Fib, table: Seq<u8>, limits: DocLimits, res: Result<FontTable>) -> bool {
    let loc = fib.locations.spec_get(INDEX_STTBF_FFN);
    if loc is None || loc.unwrap().length == 0 {
        res is Err && res->Err_0.kind() == ErrorKind::InvalidFont
    } else if loc.unwrap().offset + loc.unwrap().length > table.len() {
        res is Err && res->Err_0.kind() == ErrorKind::OutOfBounds
    } else {
        let d = table.subrange(loc.unwrap().offset as int, loc.unwrap().offset + loc.unwrap().length);
        &&& res is Ok <==> sttbf_valid(d, limits)
        &&& res matches Ok(t) ==> t.decoded_from(d)
        &&& res is Err ==> res->Err_0.kind() == (if sttbf_over_budget(d, limits) {
            ErrorKind::ResourceLimit
        } else {
            ErrorKind::InvalidFont
        })
    }
}

impl FontTable {
    /// The ordered fonts.
    pub closed spec fn spec_fonts(&self) -> Seq<FontEntry> {
        self.fonts@
    }

    /// Whether this table holds the fonts of valid `SttbfFfn` bytes `d`.
    pub open spec fn decoded_from(&self, d: Seq<u8>) -> bool {
        &&& self.spec_fonts().len() == sttbf_count(d)
        &&& forall|k: int|
            0 <= k < sttbf_count(d) ==> #[trigger] self.spec_fonts()[k].decoded_from(
                k as u16,
                ffn_bytes(d, k),
            )
    }

    /// Parses the FIB-referenced non-extended `SttbfFfn`.
    pub fn parse(fib: &Fib, table_stream: &[u8], limits: DocLimits) -> (res: Result<Self>)
        ensures
            font_table_result(*fib, table_stream@, limits, res),
    {
        let location = match fib.locations.fonts() {
            Some(location) => location,
            None => {
                return Err(DocError::InvalidFont(message("SttbfFfn location is empty")));
            },
        };
        if location.is_empty() {
            return Err(DocError::InvalidFont(message("SttbfFfn location is empty")));
        }
        let data = checked_slice(table_stream, location.offset, location.length, "SttbfFfn")?;
        Self::parse_bytes(data, limits)
    }

    /// Parses `SttbfFfn` bytes.
    pub fn parse_bytes(data: &[u8], limits: DocLimits) -> (res: Result<Self>)
        ensures
            res is Ok <==> sttbf_valid(data@, limits),
            res matches Ok(t) ==> t.decoded_from(data@),
            res is Err ==> res->Err_0.kind() == (if sttbf_over_budget(data@, limits) {
                ErrorKind::ResourceLimit
            } else {
                ErrorKind::InvalidFont
            }),
    {
        let ghost d = data@;
        let len = data.len();
        if len >= 2 && data[0] == 0xFF && data[1] == 0xFF {
            return Err(DocError::InvalidFont(message("SttbfFfn unexpectedly uses extended STTB framing")));
        }
        if len < 2 {
            return Err(DocError::InvalidFont(message("SttbfFfn.cData exceeds the table")));
        }
        let count = read_u16_le(data, 0) as usize;
        if count > 0x7FF0 || count > limits.max_fonts {
            let limit = if limits.max_fonts < 0x7FF0 {
                limits.max_fonts
            } else {
                0x7FF0
            };
            return Err(
                DocError::ResourceLimit { resource: "font", actual: count as u64, limit: limit as u64 },
            );
        }
        if len < 4 {
            return Err(DocError::InvalidFont(message("SttbfFfn.cbExtra exceeds the table")));
        }
        let extra = read_u16_le(data, 2);
        if extra != 0 {
            return Err(DocError::InvalidFont(message("SttbfFfn.cbExtra is not zero")));
        }
        let mut offset: usize = 4;
        let mut fonts: Vec<FontEntry> = Vec::new();
        let mut index: usize = 0;
        while index < count
            invariant
                d == data@,
                len == d.len(),
                count == sttbf_count(d),
                count <= 0x7FF0,
                !sttbf_over_budget(d, limits),
                index <= count,
                offset == ffn_offset(d, index as int),
                offset <= len,
                ffns_valid(d, index as int),
                fonts@.len() == index,
                forall|k: int|
                    0 <= k < index ==> #[trigger] fonts@[k].decoded_from(k as u16, ffn_bytes(d, k)),
            decreases count - index,
        {
            if offset >= len {
                return Err(DocError::InvalidFont(message("missing FFN length")));
            }
            let length = data[offset] as usize;
            if length > len - offset - 1 {
                return Err(DocError::InvalidFont(message("FFN extends beyond the font table")));
            }
            let end = offset + 1 + length;
            let bytes = &data[offset + 1..end];
            let font = parse_font(index as u16, bytes)?;
            fonts.push(font);
            proof {
                assert(ffn_offset(d, index as int + 1) == end);
                assert forall|j: int| 0 <= j < index + 1 implies {
                    let o = #[trigger] ffn_offset(d, j);
                    &&& o < d.len()
                    &&& o + 1 + d[o] as int <= d.len()
                    &&& ffn_valid(d.subrange(o + 1, o + 1 + d[o] as int))
                } by {
                    if j < index {
                        assert(ffns_valid(d, index as int));
                    }
                }
            }
            offset = end;
            index = index + 1;
        }
        if offset != len {
            return Err(DocError::InvalidFont(message("trailing bytes follow SttbfFfn entries")));
        }
        Ok(Self { fonts })
    }

    pub fn fonts(&self) -> (res: &[FontEntry])
        ensures
            res@ == self.spec_fonts(),
    {
        self.fonts.as_slice()
    }

    pub fn get(&self, index: u16) -> (res: Option<&FontEntry>)
        ensures
            index < self.spec_fonts().len() ==> res == Some(&self.spec_fonts()[index as int]),
            index >= self.spec_fonts().len() ==> res is None,
    {
        if (index as usize) < self.fonts.len() {
            Some(&self.fonts[index as usize])
        } else {
            None
        }
    }

    pub fn is_empty(&self) -> (res: bool)
        ensures
            res == (self.spec_fonts().len() == 0),
    {
        self.fonts.len() == 0
    }

    pub fn len(&self) -> (res: usize)
        ensures
            res == self.spec_fonts().len(),
    {
        self.fonts.len()
    }
}

/// Index of the first zero of `units` at or after `from`.
fn find_zero(units: &Vec<u16>, from: usize) -> (res: Option<usize>)
    ensures
        res matches Some(i) ==> first_zero_from(units@, from as int) == Some(i as int),
        res is None ==> first_zero_from(units@, from as int) is None,
        res matches Some(i) ==> from <= i < units@.len() && units@[i as int] == 0,
{
    let mut i = from;
    while i < units.len()
        invariant
            from <= i,
            first_zero_from(units@, from as int) == first_zero_from(units@, i as int),
        decreases units@.len() - i,
    {
        if units[i] == 0 {
            return Some(i);
        }
        i = i + 1;
    }
    None
}

/// Decodes the primary and alternate names of an FFN from its name units.
#[verifier::rlimit(40)]
fn decode_font_names(units: &Vec<u16>, alternate_index: usize) -> (res: Result<(String, Option<String>)>)
    ensures
        res is Ok <==> ffn_names_valid(units@, alternate_index as int),
        res matches Ok((n, a)) ==> ffn_names_decoded(units@, alternate_index as int, n, a),
        res is Err ==> res->Err_0.kind() == ErrorKind::InvalidFont,
{
    let name_end = match find_zero(units, 0) {
        Some(end) => end,
        None => {
            return Err(DocError::InvalidFont(message("FFN primary name is not null-terminated")));
        },
    };
    if name_end == 0 {
        return Err(DocError::InvalidFont(message("FFN primary name is empty")));
    }
    let name = match decode_utf16(&units.as_slice()[0..name_end]) {
        Some(name) => name,
        None => {
            return Err(DocError::InvalidFont(message("FFN primary name is invalid UTF-16")));
        },
    };
    let alternate_name = if alternate_index == 0 {
        if name_end != units.len() - 1 {
            return Err(DocError::InvalidFont(message("FFN has trailing name data but ixchSzAlt is zero")));
        }
        None
    } else {
        if alternate_index - 1 != name_end || alternate_index >= units.len() {
            return Err(DocError::InvalidFont(message("FFN ixchSzAlt does not follow its primary name")));
        }
        let alternate_end = match find_zero(units, alternate_index) {
            Some(end) => end,
            None => {
                return Err(DocError::InvalidFont(message("FFN alternate name is not terminated")));
            },
        };
        if alternate_end == alternate_index || alternate_end + 1 != units.len() {
            return Err(DocError::InvalidFont(message("FFN alternate name is empty or has trailing data")));
        }
        match decode_utf16(&units.as_slice()[alternate_index..alternate_end]) {
            Some(alternate) => Some(alternate),
            None => {
                return Err(DocError::InvalidFont(message("FFN alternate name is invalid UTF-16")));
            },
        }
    };
    assert(first_zero_from(units@, 0) == Some(name_end as int));
    assert(valid_utf16(units@.subrange(0, name_end as int)));
    Ok((name, alternate_name))
}

/// Decodes one FFN record.
pub fn parse_font(index: u16, data: &[u8]) -> (res: Result<FontEntry>)
    ensures
        res is Ok <==> ffn_valid(data@),
        res matches Ok(f) ==> f.decoded_from(index, data@),
        res is Err ==> res->Err_0.kind() == ErrorKind::InvalidFont,
{
    let ghost e = data@;
    let len = data.len();
    if len < FFN_FIXED_SIZE + 2 || (len - FFN_FIXED_SIZE) % 2 != 0 {
        return Err(DocError::InvalidFont(message("FFN cannot contain its fixed fields and name")));
    }
    let family_id = data[0];
    let raw_weight = read_u16_le(data, 1);
    let weight: i16 = if raw_weight < 0x8000 {
        raw_weight as i16
    } else {
        let below: u16 = 0xFFFF - raw_weight;
        -(below as i16) - 1
    };
    assert(weight == le_i16(e, 1));
    if weight < 0 || weight > 1000 {
        return Err(DocError::InvalidFont(message("FFN weight is outside 0..=1000")));
    }
    let charset = data[3];
    if !(charset == 0 || charset == 1 || charset == 2 || charset == 77 || charset == 128 || charset
        == 129 || charset == 130 || charset == 134 || charset == 136 || charset == 161 || charset
        == 162 || charset == 163 || charset == 177 || charset == 178 || charset == 186 || charset
        == 204 || charset == 222 || charset == 238 || charset == 255) {
        return Err(DocError::InvalidFont(message("FFN has an unsupported charset")));
    }
    let alternate_index = data[4] as usize;
    let mut panose = [0u8; 10];
    let mut i: usize = 0;
    while i < 10
        invariant
            e == data@,
            len == e.len(),
            len >= 41,
            i <= 10,
            forall|j: int| 0 <= j < i ==> panose@[j] == e[5 + j],
        decreases 10 - i,
    {
        panose[i] = data[5 + i];
        i = i + 1;
    }
    let mut signature = [0u8; 24];
    let mut i: usize = 0;
    while i < 24
        invariant
            e == data@,
            len == e.len(),
            len >= 41,
            i <= 24,
            forall|j: int| 0 <= j < i ==> signature@[j] == e[15 + j],
        decreases 24 - i,
    {
        signature[i] = data[15 + i];
        i = i + 1;
    }
    assert(panose@ =~= e.subrange(5, 15));
    assert(signature@ =~= e.subrange(15, 39));
    let unit_count = (len - FFN_FIXED_SIZE) / 2;
    let mut units: Vec<u16> = Vec::new();
    let mut i: usize = 0;
    while i < unit_count
        invariant
            e == data@,
            len == e.len(),
            unit_count == (len - 39) / 2,
            len >= 41,
            (len - 39) % 2 == 0,
            i <= unit_count,
            units@ == ffn_units(e).take(i as int),
        decreases unit_count - i,
    {
        units.push(read_u16_le(data, FFN_FIXED_SIZE + 2 * i));
        proof {
            assert(units@ =~= ffn_units(e).take(i as int + 1));
        }
        i = i + 1;
    }
    assert(units@ =~= ffn_units(e));
    let (name, alternate_name) = decode_font_names(&units, alternate_index)?;
    Ok(
        FontEntry {
            index,
            family_id,
            weight,
            charset,
            name,
            alternate_name,
            panose,
            signature,
        },
    )
}

} // verus!

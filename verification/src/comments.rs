//! Source-backed Word comment references, anchors, and body ranges.

use vstd::prelude::*;
use vstd::string::StringExecFns;

use crate::binary::{ByteCursor, checked_slice, le_i32, le_u16, le_u32, le_u32_seq, non_decreasing, read_i32_le, read_u16_le, read_u32_le, strictly_increasing};
use crate::document::{Story, StoryKind, WordBinaryDocument};
use crate::error::{DocError, ErrorKind, Outcome, Result, first_failure, lemma_first_failure_persists, message};
use crate::fib::{FcLcb, INDEX_GRP_XST_ATN_OWNERS, INDEX_PLCF_AND_REF, INDEX_PLCF_AND_TXT, INDEX_PLCF_ATN_BKF, INDEX_PLCF_ATN_BKL, INDEX_STTBF_ATN_BKMK};
use crate::limits::DocLimits;
use crate::plc::{any_at_least, has_value_at_least, is_strictly_increasing, read_u32_array};
use crate::text::{decode_utf16, utf16_strict, valid_utf16};

verus! {

/// Most author names a `GrpXstAtnOwners` may hold.
pub const MAX_COMMENT_AUTHORS: usize = 0x7FFF;

/// Longest author name, in UTF-16 units.
pub const MAX_AUTHOR_NAME_CHARS: usize = 55;

/// Metadata and source ranges for one Word comment.
#[derive(Debug, Clone, PartialEq, Eq)]
pub struct SourceComment {
    /// Stable positive identifier used by a future OOXML comment projection.
    pub comment_id: u32,
    /// Global source CP of the comment reference character in the main story.
    pub reference_cp: u32,
    /// Global source CP of the required leading comment marker (`0x0005`).
    pub cp_start: u32,
    /// Exclusive global source CP, including the terminal paragraph mark.
    pub cp_end: u32,
    /// Author initials retained directly from `ATRDPre10`.
    pub initials: String,
    /// Index into the source comment-owner string table.
    pub author_index: u16,
    /// Full author name resolved through `GrpXstAtnOwners`.
    pub author: String,
    /// Annotation bookmark tag, or `-1` for a zero-length anchor.
    pub bookmark_tag: i32,
    /// Inclusive source CP where the annotated main-story range begins.
    pub anchor_cp_start: Option<u32>,
    /// Exclusive source CP where the annotated main-story range ends.
    pub anchor_cp_end: Option<u32>,
}

/// Upper-case hexadecimal digit of `v` in `0..16`.
pub open spec fn hex_digit(v: int) -> char {
    if v < 10 {
        (('0' as int) + v) as char
    } else {
        (('A' as int) + v - 10) as char
    }
}

/// The last `n` hexadecimal digits of `v`, most significant first.
pub open spec fn hex_digits(v: int, n: nat) -> Seq<char>
    decreases n,
{
    if n == 0 {
        seq![]
    } else {
        hex_digits(v / 16, (n - 1) as nat) + seq![hex_digit(v % 16)]
    }
}

/// The private-use marker `U+F0000`, `label`, eight hex digits of `id`, `U+F0001`.
pub open spec fn projection_text(label: Seq<char>, id: u32) -> Seq<char> {
    seq!['\u{F0000}'] + label + hex_digits(id as int, 8) + seq!['\u{F0001}']
}

/// One hexadecimal digit as a string.
fn hex_str(d: u32) -> (res: &'static str)
    requires
        d < 16,
    ensures
        res@ == seq![hex_digit(d as int)],
{
    proof {
        reveal_strlit("0");
        reveal_strlit("1");
        reveal_strlit("2");
        reveal_strlit("3");
        reveal_strlit("4");
        reveal_strlit("5");
        reveal_strlit("6");
        reveal_strlit("7");
        reveal_strlit("8");
        reveal_strlit("9");
        reveal_strlit("A");
        reveal_strlit("B");
        reveal_strlit("C");
        reveal_strlit("D");
        reveal_strlit("E");
        reveal_strlit("F");
    }
    let s = if d == 0 {
        "0"
    } else if d == 1 {
        "1"
    } else if d == 2 {
        "2"
    } else if d == 3 {
        "3"
    } else if d == 4 {
        "4"
    } else if d == 5 {
        "5"
    } else if d == 6 {
        "6"
    } else if d == 7 {
        "7"
    } else if d == 8 {
        "8"
    } else if d == 9 {
        "9"
    } else if d == 10 {
        "A"
    } else if d == 11 {
        "B"
    } else if d == 12 {
        "C"
    } else if d == 13 {
        "D"
    } else if d == 14 {
        "E"
    } else {
        "F"
    };
    assert(s@ =~= seq![hex_digit(d as int)]);
    s
}

/// Appends the last `n` hexadecimal digits of `v`.
pub(crate) fn append_hex(out: &mut String, v: u32, n: usize)
    ensures
        final(out)@ == old(out)@ + hex_digits(v as int, n as nat),
    decreases n,
{
    if n == 0 {
        assert(old(out)@ + hex_digits(v as int, 0) =~= old(out)@);
        return;
    }
    append_hex(out, v / 16, n - 1);
    out.append(hex_str(v % 16));
    assert(old(out)@ + hex_digits(v as int, n as nat) =~= old(out)@ + hex_digits((v / 16) as int, (n - 1) as nat) + seq![hex_digit((v % 16) as int)]);
}

/// Builds the projection marker for `label` and `id`.
fn projection(label: &str, id: u32) -> (res: String)
    ensures
        res@ == projection_text(label@, id),
{
    proof {
        reveal_strlit("\u{F0000}");
        reveal_strlit("\u{F0001}");
    }
    let mut out = String::from_str("\u{F0000}");
    out.append(label);
    append_hex(&mut out, id, 8);
    out.append("\u{F0001}");
    out
}

impl SourceComment {
    /// First CP containing visible comment body text (after the required marker).
    pub fn content_cp_start(&self) -> (res: u32)
        requires
            self.cp_start < u32::MAX,
        ensures
            res == self.cp_start + 1,
    {
        self.cp_start + 1
    }

    /// Private-use marker replaced by the legacy Office bridge with an OOXML
    /// `commentReference` element.
    pub fn projection_marker(&self) -> (res: String)
        ensures
            res@ == projection_text("ZRIMO_COMMENT_"@, self.comment_id),
    {
        projection("ZRIMO_COMMENT_", self.comment_id)
    }

    /// Private marker replaced with `w:commentRangeStart` by the bridge.
    pub fn range_start_projection_marker(&self) -> (res: String)
        ensures
            res@ == projection_text("ZRIMO_COMMENT_RANGE_START_"@, self.comment_id),
    {
        projection("ZRIMO_COMMENT_RANGE_START_", self.comment_id)
    }

    /// Private marker replaced with `w:commentRangeEnd` by the bridge.
    pub fn range_end_projection_marker(&self) -> (res: String)
        ensures
            res@ == projection_text("ZRIMO_COMMENT_RANGE_END_"@, self.comment_id),
    {
        projection("ZRIMO_COMMENT_RANGE_END_", self.comment_id)
    }
}

/// One parsed `ATRDPre10` comment reference.
#[derive(Debug, Clone, PartialEq, Eq)]
pub struct CommentReference {
    pub cp: u32,
    pub initials: String,
    pub author_index: u16,
    pub bookmark_tag: i32,
}

// ---- PlcfandRef.

/// Offset of `ATRDPre10` record `k` of a `PlcfandRef` with `count` records.
pub open spec fn atrd_offset(count: int, k: int) -> int {
    4 * (count + 1) + 30 * k
}

/// The initials units of record `k`.
pub open spec fn atrd_initials(b: Seq<u8>, count: int, k: int) -> Seq<u16> {
    let base = atrd_offset(count, k);
    Seq::new(le_u16(b, base) as nat, |j: int| le_u16(b, base + 2 + 2 * j))
}

/// Whether `ATRDPre10` record `k` is valid.
pub open spec fn atrd_valid(b: Seq<u8>, count: int, k: int) -> bool {
    let base = atrd_offset(count, k);
    &&& le_u16(b, base) <= 9
    &&& valid_utf16(atrd_initials(b, count, k))
    &&& le_u16(b, base + 22) == 0
    &&& le_u16(b, base + 24) == 0
}

/// Whether `PlcfandRef` bytes `b` are valid for a main story of `main_length` CPs.
pub open spec fn comment_references_valid(b: Seq<u8>, main_length: u32) -> bool {
    let count = (b.len() - 4) / 34;
    let positions = le_u32_seq(b, 0, (count + 1) as nat);
    &&& b.len() >= 4 && (b.len() - 4) % 34 == 0
    &&& strictly_increasing(positions)
    &&& !any_at_least(positions, count, main_length as int)
    &&& forall|k: int| 0 <= k < count ==> #[trigger] atrd_valid(b, count, k)
}

impl CommentReference {
    /// Whether this is record `k` of valid `PlcfandRef` bytes `b`.
    pub open spec fn decoded_from(&self, b: Seq<u8>, k: int) -> bool {
        let count = (b.len() - 4) / 34;
        let base = atrd_offset(count, k);
        &&& self.cp == le_u32(b, 4 * k)
        &&& self.initials@ == utf16_strict(atrd_initials(b, count, k)).unwrap()
        &&& self.author_index == le_u16(b, base + 20)
        &&& self.bookmark_tag == le_i32(b, base + 26)
    }
}

/// Parses one `ATRDPre10` record.
fn parse_reference_record(bytes: &[u8], count: usize, k: usize, cp: u32) -> (res: Result<CommentReference>)
    requires
        bytes@.len() == 4 + 34 * count,
        k < count,
        cp == le_u32(bytes@, 4 * k),
    ensures
        res is Ok <==> atrd_valid(bytes@, count as int, k as int),
        res matches Ok(r) ==> r.decoded_from(bytes@, k as int),
        res is Err ==> res->Err_0.kind() == ErrorKind::InvalidComment,
{
    let len = bytes.len();
    let base = 4 * (count + 1) + 30 * k;
    let initials_length = read_u16_le(bytes, base) as usize;
    if initials_length > 9 {
        return Err(DocError::InvalidComment(message("ATRDPre10 initials length exceeds 9")));
    }
    let mut units: Vec<u16> = Vec::new();
    let mut j: usize = 0;
    while j < initials_length
        invariant
            len == bytes@.len(),
            base + 30 <= len,
            initials_length <= 9,
            initials_length == le_u16(bytes@, base as int),
            base == atrd_offset(count as int, k as int),
            j <= initials_length,
            units@ == atrd_initials(bytes@, count as int, k as int).take(j as int),
        decreases initials_length - j,
    {
        units.push(read_u16_le(bytes, base + 2 + 2 * j));
        proof {
            assert(units@ =~= atrd_initials(bytes@, count as int, k as int).take(j as int + 1));
        }
        j = j + 1;
    }
    assert(units@ =~= atrd_initials(bytes@, count as int, k as int));
    let initials = match decode_utf16(units.as_slice()) {
        Some(initials) => initials,
        None => {
            return Err(DocError::InvalidComment(message("ATRDPre10 initials contain invalid UTF-16")));
        },
    };
    let author_index = read_u16_le(bytes, base + 20);
    let bits_not_used = read_u16_le(bytes, base + 22);
    let grf_not_used = read_u16_le(bytes, base + 24);
    if bits_not_used != 0 || grf_not_used != 0 {
        return Err(DocError::InvalidComment(message("ATRDPre10 reserved fields must be zero")));
    }
    let bookmark_tag = read_i32_le(bytes, base + 26);
    Ok(CommentReference { cp, initials, author_index, bookmark_tag })
}

/// Parses `PlcfandRef`: the main-story comment reference CPs and their metadata.
pub fn parse_references(bytes: &[u8], main_length: u32) -> (res: Result<Vec<CommentReference>>)
    ensures
        res is Ok <==> comment_references_valid(bytes@, main_length),
        res matches Ok(v) ==> v@.len() == (bytes@.len() - 4) / 34 && forall|k: int|
            0 <= k < v@.len() ==> #[trigger] v@[k].decoded_from(bytes@, k),
        res is Err ==> res->Err_0.kind() == ErrorKind::InvalidComment,
{
    let len = bytes.len();
    if len < 4 || (len - 4) % 34 != 0 {
        return Err(DocError::InvalidComment(message("PlcfandRef length is not 34*n+4")));
    }
    let count = (len - 4) / 34;
    let positions = read_u32_array(bytes, count + 1);
    if !is_strictly_increasing(positions.as_slice()) {
        return Err(DocError::InvalidComment(message("comment reference CPs are not strictly increasing")));
    }
    if has_value_at_least(positions.as_slice(), count, main_length) {
        return Err(DocError::InvalidComment(message("comment reference CP is outside the main story")));
    }
    let mut references: Vec<CommentReference> = Vec::new();
    let mut k: usize = 0;
    while k < count
        invariant
            len == bytes@.len(),
            len == 4 + 34 * count,
            count == (bytes@.len() - 4) / 34,
            positions@ == le_u32_seq(bytes@, 0, (count + 1) as nat),
            k <= count,
            references@.len() == k,
            forall|j: int| 0 <= j < k ==> #[trigger] atrd_valid(bytes@, count as int, j),
            forall|j: int| 0 <= j < k ==> #[trigger] references@[j].decoded_from(bytes@, j),
        decreases count - k,
    {
        let reference = parse_reference_record(bytes, count, k, positions[k])?;
        references.push(reference);
        k = k + 1;
    }
    Ok(references)
}

// ---- GrpXstAtnOwners.

/// The author names read from `b` from `offset` after `acc`, or the failure kind.
pub open spec fn authors_from(b: Seq<u8>, offset: int, acc: Seq<Seq<char>>) -> Outcome<Seq<Seq<char>>>
    decreases b.len() - offset,
{
    if offset < 0 || offset >= b.len() {
        Ok(acc)
    } else if acc.len() >= MAX_COMMENT_AUTHORS {
        Err(ErrorKind::InvalidComment)
    } else if offset + 2 > b.len() {
        Err(ErrorKind::OutOfBounds)
    } else {
        let n = le_u16(b, offset) as int;
        let units = Seq::new(n as nat, |i: int| le_u16(b, offset + 2 + 2 * i));
        if n > MAX_AUTHOR_NAME_CHARS {
            Err(ErrorKind::InvalidComment)
        } else if offset + 2 + 2 * n > b.len() {
            Err(ErrorKind::OutOfBounds)
        } else if !valid_utf16(units) || acc.contains(utf16_strict(units).unwrap()) {
            Err(ErrorKind::InvalidComment)
        } else {
            authors_from(b, offset + 2 + 2 * n, acc.push(utf16_strict(units).unwrap()))
        }
    }
}

/// `GrpXstAtnOwners` bytes `b`: the unique author names, or the failure kind.
pub open spec fn comment_authors(b: Seq<u8>) -> Outcome<Seq<Seq<char>>> {
    if b.len() == 0 {
        Err(ErrorKind::InvalidComment)
    } else {
        authors_from(b, 0, seq![])
    }
}

/// The names of `v`.
pub open spec fn names(v: Seq<String>) -> Seq<Seq<char>> {
    v.map_values(|s: String| s@)
}

/// Whether `name` is among `authors`.
fn contains_name(authors: &Vec<String>, name: &String) -> (res: bool)
    ensures
        res == names(authors@).contains(name@),
{
    let mut i: usize = 0;
    while i < authors.len()
        invariant
            i <= authors@.len(),
            forall|j: int| 0 <= j < i ==> authors@[j]@ != name@,
        decreases authors@.len() - i,
    {
        if authors[i] == *name {
            assert(names(authors@)[i as int] == name@);
            return true;
        }
        i = i + 1;
    }
    proof {
        if names(authors@).contains(name@) {
            let j = choose|j: int| 0 <= j < names(authors@).len() && names(authors@)[j] == name@;
            assert(authors@[j]@ == name@);
        }
    }
    false
}

/// Parses `GrpXstAtnOwners`: the unique comment author names.
pub fn parse_authors(bytes: &[u8]) -> (res: Result<Vec<String>>)
    ensures
        match comment_authors(bytes@) {
            Ok(v) => res matches Ok(r) && names(r@) == v,
            Err(e) => res is Err && res->Err_0.kind() == e,
        },
{
    if bytes.len() == 0 {
        return Err(DocError::InvalidComment(message("GrpXstAtnOwners is empty while comments are present")));
    }
    let len = bytes.len();
    let mut offset: usize = 0;
    let mut authors: Vec<String> = Vec::new();
    assert(names(authors@) =~= seq![]);
    while offset < len
        invariant
            len == bytes@.len(),
            len > 0,
            offset <= len,
            comment_authors(bytes@) == authors_from(bytes@, offset as int, names(authors@)),
        decreases len - offset,
    {
        if authors.len() >= MAX_COMMENT_AUTHORS {
            return Err(DocError::InvalidComment(message("GrpXstAtnOwners exceeds 32767 entries")));
        }
        if len - offset < 2 {
            return Err(DocError::OutOfBounds { structure: "GrpXstAtnOwners", offset, end: offset.saturating_add(2), available: len });
        }
        let length = read_u16_le(bytes, offset) as usize;
        if length > MAX_AUTHOR_NAME_CHARS {
            return Err(DocError::InvalidComment(message("comment author name is too long")));
        }
        if 2 * length > len - offset - 2 {
            return Err(DocError::OutOfBounds { structure: "GrpXstAtnOwners", offset: offset + 2, end: (offset + 2).saturating_add(2 * length), available: len });
        }
        let ghost units_spec = Seq::new(length as nat, |i: int| le_u16(bytes@, offset + 2 + 2 * i));
        let mut units: Vec<u16> = Vec::new();
        let mut j: usize = 0;
        while j < length
            invariant
                len == bytes@.len(),
                offset + 2 + 2 * length <= len,
                j <= length,
                units_spec == Seq::new(length as nat, |i: int| le_u16(bytes@, offset + 2 + 2 * i)),
                units@ == units_spec.take(j as int),
            decreases length - j,
        {
            units.push(read_u16_le(bytes, offset + 2 + 2 * j));
            proof {
                assert(units@ =~= units_spec.take(j as int + 1));
            }
            j = j + 1;
        }
        assert(units@ =~= units_spec);
        let author = match decode_utf16(units.as_slice()) {
            Some(author) => author,
            None => {
                return Err(DocError::InvalidComment(message("comment author contains invalid UTF-16")));
            },
        };
        if contains_name(&authors, &author) {
            return Err(DocError::InvalidComment(message("duplicate comment author name")));
        }
        let ghost before = names(authors@);
        authors.push(author);
        proof {
            assert(names(authors@) =~= before.push(utf16_strict(units_spec).unwrap()));
        }
        offset = offset + 2 + 2 * length;
    }
    Ok(authors)
}

// ---- PlcfandTxt.

/// `PlcfandTxt` bytes `b` for `count` comments of `story`: the `count + 1`
/// used boundaries, or the failure kind.
pub open spec fn comment_boundaries(b: Seq<u8>, count: int, story: Story) -> Outcome<Seq<u32>> {
    let used = le_u32_seq(b, 0, (count + 2) as nat).take(count + 1);
    let story_length = story.cp_end - story.cp_start;
    if b.len() != 4 * (count + 2) || !strictly_increasing(used) || story_length < 1 || used.last()
        != story_length - 1 {
        Err(ErrorKind::InvalidComment)
    } else {
        Ok(used)
    }
}

/// Parses `PlcfandTxt`.
pub fn parse_boundaries(bytes: &[u8], count: usize, story: &Story) -> (res: Result<Vec<u32>>)
    requires
        story.cp_start <= story.cp_end,
    ensures
        match comment_boundaries(bytes@, count as int, *story) {
            Ok(v) => res matches Ok(r) && r@ == v,
            Err(e) => res is Err && res->Err_0.kind() == e,
        },
{
    let len = bytes.len();
    if count > (usize::MAX / 4) - 2 || len != 4 * (count + 2) {
        return Err(DocError::InvalidComment(message("PlcfandTxt has the wrong length")));
    }
    let mut positions = read_u32_array(bytes, count + 2);
    positions.pop();
    proof {
        assert(positions@ =~= le_u32_seq(bytes@, 0, (count + 2) as nat).take(count as int + 1));
    }
    if !is_strictly_increasing(positions.as_slice()) {
        return Err(DocError::InvalidComment(message("comment body CPs are not strictly increasing")));
    }
    let story_length = story.cp_end - story.cp_start;
    if story_length < 1 {
        return Err(DocError::InvalidComment(message("comment story has no trailing guard character")));
    }
    if positions[count] != story_length - 1 {
        return Err(DocError::InvalidComment(message("final comment body boundary does not precede the guard")));
    }
    Ok(positions)
}

// ---- Annotation bookmarks.

/// Offset of `SttbfAtnBkmk` entry `k`.
pub open spec fn bkmk_offset(k: int) -> int {
    6 + 12 * k
}

/// Why entry `k` of `SttbfAtnBkmk` bytes `b` fails, if it does.
pub open spec fn bkmk_entry_failure(b: Seq<u8>, k: int) -> Option<ErrorKind> {
    let o = bkmk_offset(k);
    if o + 2 > b.len() {
        Some(ErrorKind::OutOfBounds)
    } else if le_u16(b, o) != 0 {
        Some(ErrorKind::InvalidComment)
    } else if o + 4 > b.len() {
        Some(ErrorKind::OutOfBounds)
    } else if le_u16(b, o + 2) != 0x0100 {
        Some(ErrorKind::InvalidComment)
    } else if o + 8 > b.len() {
        Some(ErrorKind::OutOfBounds)
    } else if le_u32(b, o + 4) > 0x7FFF_FFFF {
        Some(ErrorKind::InvalidComment)
    } else if o + 12 > b.len() {
        Some(ErrorKind::OutOfBounds)
    } else if le_i32(b, o + 8) != -1 {
        Some(ErrorKind::InvalidComment)
    } else {
        None
    }
}

/// Most annotation bookmarks under `limits`.
pub open spec fn max_bookmarks(limits: DocLimits) -> int {
    if limits.max_comments < 0x3FFB {
        limits.max_comments as int
    } else {
        0x3FFB
    }
}

/// `SttbfAtnBkmk` bytes `b`: the bookmark tags, or the failure kind.
pub open spec fn bookmark_tags(b: Seq<u8>, limits: DocLimits) -> Outcome<Seq<i32>> {
    let count = le_u16(b, 2) as int;
    let checks = Seq::new(count as nat, |k: int| bkmk_entry_failure(b, k));
    if b.len() < 2 {
        Err(ErrorKind::OutOfBounds)
    } else if le_u16(b, 0) != 0xFFFF {
        Err(ErrorKind::InvalidComment)
    } else if b.len() < 4 {
        Err(ErrorKind::OutOfBounds)
    } else if count > max_bookmarks(limits) {
        Err(ErrorKind::ResourceLimit)
    } else if b.len() < 6 {
        Err(ErrorKind::OutOfBounds)
    } else if le_u16(b, 4) != 10 {
        Err(ErrorKind::InvalidComment)
    } else if first_failure(checks, count) is Some {
        Err(first_failure(checks, count).unwrap())
    } else if bkmk_offset(count) != b.len() {
        Err(ErrorKind::InvalidComment)
    } else {
        Ok(Seq::new(count as nat, |k: int| le_u32(b, bkmk_offset(k) + 4) as i32))
    }
}

/// Reads entry `k` of `SttbfAtnBkmk`: its bookmark tag.
fn read_bookmark_entry(bytes: &[u8], k: usize) -> (res: Result<i32>)
    requires
        k <= 0x3FFB,
    ensures
        match bkmk_entry_failure(bytes@, k as int) {
            Some(e) => res is Err && res->Err_0.kind() == e,
            None => res == Ok::<i32, DocError>(le_u32(bytes@, bkmk_offset(k as int) + 4) as i32),
        },
{
    let len = bytes.len();
    let o = 6 + 12 * k;
    let oob = DocError::OutOfBounds { structure: "SttbfAtnBkmk", offset: o, end: o + 12, available: len };
    if o + 2 > len {
        return Err(oob);
    }
    if read_u16_le(bytes, o) != 0 {
        return Err(DocError::InvalidComment(message("SttbfAtnBkmk entry has a non-empty string")));
    }
    if o + 4 > len {
        return Err(oob);
    }
    if read_u16_le(bytes, o + 2) != 0x0100 {
        return Err(DocError::InvalidComment(message("SttbfAtnBkmk entry is not an annotation bookmark")));
    }
    if o + 8 > len {
        return Err(oob);
    }
    let tag = read_u32_le(bytes, o + 4);
    if tag > 0x7FFF_FFFF {
        return Err(DocError::InvalidComment(message("SttbfAtnBkmk entry tag does not fit ATRDPre10")));
    }
    if o + 12 > len {
        return Err(oob);
    }
    if read_i32_le(bytes, o + 8) != -1 {
        return Err(DocError::InvalidComment(message("SttbfAtnBkmk entry lTagOld is not -1")));
    }
    Ok(tag as i32)
}

/// Parses `SttbfAtnBkmk`: one annotation bookmark tag per entry.
pub fn parse_annotation_metadata(bytes: &[u8], limits: DocLimits) -> (res: Result<Vec<i32>>)
    ensures
        match bookmark_tags(bytes@, limits) {
            Ok(v) => res matches Ok(r) && r@ == v,
            Err(e) => res is Err && res->Err_0.kind() == e,
        },
{
    let len = bytes.len();
    let oob = DocError::OutOfBounds { structure: "SttbfAtnBkmk", offset: 0, end: 0, available: len };
    if len < 2 {
        return Err(oob);
    }
    if read_u16_le(bytes, 0) != 0xFFFF {
        return Err(DocError::InvalidComment(message("SttbfAtnBkmk is not an extended STTB")));
    }
    if len < 4 {
        return Err(oob);
    }
    let count = read_u16_le(bytes, 2) as usize;
    let max = if limits.max_comments < 0x3FFB {
        limits.max_comments
    } else {
        0x3FFB
    };
    if count > max {
        return Err(DocError::ResourceLimit { resource: "annotation bookmark", actual: count as u64, limit: max as u64 });
    }
    if len < 6 {
        return Err(oob);
    }
    if read_u16_le(bytes, 4) != 10 {
        return Err(DocError::InvalidComment(message("SttbfAtnBkmk.cbExtra must be 10")));
    }
    let ghost checks = Seq::new(count as nat, |k: int| bkmk_entry_failure(bytes@, k));
    let ghost expected = Seq::new(count as nat, |k: int| le_u32(bytes@, bkmk_offset(k) + 4) as i32);
    let mut tags: Vec<i32> = Vec::new();
    let mut k: usize = 0;
    while k < count
        invariant
            len == bytes@.len(),
            len >= 6,
            count == le_u16(bytes@, 2),
            count <= 0x3FFB,
            le_u16(bytes@, 0) == 0xFFFF,
            le_u16(bytes@, 4) == 10,
            count <= max_bookmarks(limits),
            checks == Seq::new(count as nat, |k: int| bkmk_entry_failure(bytes@, k)),
            expected == Seq::new(count as nat, |k: int| le_u32(bytes@, bkmk_offset(k) + 4) as i32),
            k <= count,
            first_failure(checks, k as int) is None,
            tags@ == expected.take(k as int),
        decreases count - k,
    {
        let tag = match read_bookmark_entry(bytes, k) {
            Ok(tag) => tag,
            Err(e) => {
                proof {
                    assert(checks[k as int] == bkmk_entry_failure(bytes@, k as int));
                    assert(first_failure(checks, k as int + 1) == checks[k as int]);
                    lemma_first_failure_persists(checks, k as int + 1, count as int);
                    assert(bookmark_tags(bytes@, limits) == Outcome::<Seq<i32>>::Err(checks[k as int].unwrap()));
                }
                return Err(e);
            },
        };
        assert(checks[k as int] is None);
        tags.push(tag);
        proof {
            assert(tags@ =~= expected.take(k as int + 1));
        }
        k = k + 1;
    }
    if 6 + 12 * count != len {
        return Err(DocError::InvalidComment(message("SttbfAtnBkmk contains trailing bytes")));
    }
    assert(tags@ =~= expected);
    Ok(tags)
}

/// Whether annotation bookmark CPs are sorted, end with the guard `main + 2`,
/// and otherwise stay within `main + 1`.
pub open spec fn annotation_positions_valid(positions: Seq<u32>, main_length: u32) -> bool {
    &&& non_decreasing(positions)
    &&& main_length as int + 2 <= u32::MAX
    &&& positions.len() > 0 && positions.last() == main_length + 2
    &&& forall|k: int| 0 <= k < positions.len() - 1 ==> #[trigger] positions[k] <= main_length + 1
}

/// Validates annotation bookmark CPs.
pub fn validate_annotation_positions(positions: &[u32], main_length: u32) -> (res: Result<()>)
    ensures
        res is Ok <==> annotation_positions_valid(positions@, main_length),
        res is Err ==> res->Err_0.kind() == ErrorKind::InvalidComment,
{
    let n = positions.len();
    let mut k: usize = 0;
    while n > 0 && k < n - 1
        invariant
            n == positions@.len(),
            k + 1 <= n || n == 0,
            forall|i: int, j: int| 0 <= i <= j <= k && j < n ==> positions@[i] <= positions@[j],
        decreases n - k,
    {
        if positions[k] > positions[k + 1] {
            assert(!non_decreasing(positions@)) by {
                assert(positions@[k as int] > positions@[k as int + 1]);
            }
            return Err(DocError::InvalidComment(message("annotation bookmark CPs are not sorted")));
        }
        k = k + 1;
    }
    if main_length > u32::MAX - 2 {
        return Err(DocError::InvalidComment(message("annotation bookmark guard CP overflow")));
    }
    let guard = main_length + 2;
    if n == 0 || positions[n - 1] != guard {
        return Err(DocError::InvalidComment(message("annotation bookmark guard CP does not equal main story length plus two")));
    }
    let max_position = main_length + 1;
    let mut k: usize = 0;
    while n > 0 && k < n - 1
        invariant
            n == positions@.len(),
            n >= 1,
            k + 1 <= n,
            max_position == main_length + 1,
            forall|i: int| 0 <= i < k ==> positions@[i] <= max_position,
        decreases n - k,
    {
        if positions[k] > max_position {
            assert(positions@[k as int] > main_length + 1);
            return Err(DocError::InvalidComment(message("annotation bookmark CP is outside the main story")));
        }
        k = k + 1;
    }
    Ok(())
}

/// Whether `PlcfAtnBkf` bytes `b` are valid for `count` bookmarks.
pub open spec fn annotation_starts_valid(b: Seq<u8>, count: int, main_length: u32) -> bool {
    let base = 4 * (count + 1);
    &&& b.len() == 4 + 8 * count
    &&& annotation_positions_valid(le_u32_seq(b, 0, (count + 1) as nat), main_length)
    &&& forall|k: int| 0 <= k < count ==> #[trigger] le_u16(b, base + 4 * k) < count
    &&& forall|i: int, j: int|
        #![trigger le_u16(b, base + 4 * i), le_u16(b, base + 4 * j)]
        0 <= i < j < count ==> le_u16(b, base + 4 * i) != le_u16(b, base + 4 * j)
    &&& forall|k: int| 0 <= k < count ==> #[trigger] le_u16(b, base + 4 * k + 2) & 0x8080 == 0
}

/// The `(start CP, end index)` pairs of valid `PlcfAtnBkf` bytes.
pub open spec fn annotation_starts(b: Seq<u8>, count: int) -> Seq<(u32, usize)> {
    Seq::new(count as nat, |k: int| (le_u32(b, 4 * k), le_u16(b, 4 * (count + 1) + 4 * k) as usize))
}

/// Parses `PlcfAtnBkf`.
pub fn parse_annotation_starts(bytes: &[u8], count: usize, main_length: u32) -> (res: Result<Vec<(u32, usize)>>)
    requires
        count <= 0x3FFB,
    ensures
        res is Ok <==> annotation_starts_valid(bytes@, count as int, main_length),
        res matches Ok(v) ==> v@ == annotation_starts(bytes@, count as int),
        res is Err ==> res->Err_0.kind() == ErrorKind::InvalidComment,
{
    let len = bytes.len();
    if len != 8 * count + 4 {
        return Err(DocError::InvalidComment(message("PlcfAtnBkf has the wrong length")));
    }
    let positions = read_u32_array(bytes, count + 1);
    validate_annotation_positions(positions.as_slice(), main_length)?;
    let base = 4 * (count + 1);
    let mut seen: Vec<bool> = Vec::new();
    let mut i: usize = 0;
    while i < count
        invariant
            i <= count,
            seen@.len() == i,
            forall|j: int| 0 <= j < i ==> !seen@[j],
        decreases count - i,
    {
        seen.push(false);
        i = i + 1;
    }
    let mut starts: Vec<(u32, usize)> = Vec::new();
    let mut k: usize = 0;
    while k < count
        invariant
            len == bytes@.len(),
            len == 4 + 8 * count,
            base == 4 * (count + 1),
            positions@ == le_u32_seq(bytes@, 0, (count + 1) as nat),
            seen@.len() == count,
            k <= count,
            forall|j: int| 0 <= j < k ==> #[trigger] le_u16(bytes@, base + 4 * j) < count,
            forall|i: int, j: int|
                #![trigger le_u16(bytes@, base + 4 * i), le_u16(bytes@, base + 4 * j)]
                0 <= i < j < k ==> le_u16(bytes@, base + 4 * i) != le_u16(bytes@, base + 4 * j),
            forall|j: int| 0 <= j < k ==> #[trigger] le_u16(bytes@, base + 4 * j + 2) & 0x8080 == 0,
            forall|e: int| 0 <= e < count ==> (#[trigger] seen@[e] <==> exists|j: int| 0 <= j < k && #[trigger] le_u16(bytes@, base + 4 * j) == e),
            starts@ == annotation_starts(bytes@, count as int).take(k as int),
        decreases count - k,
    {
        let end_index = read_u16_le(bytes, base + 4 * k) as usize;
        let bkc = read_u16_le(bytes, base + 4 * k + 2);
        if end_index >= count || seen[end_index] {
            proof {
                if end_index < count {
                    let j = choose|j: int| 0 <= j < k && #[trigger] le_u16(bytes@, base + 4 * j) == end_index;
                    assert(le_u16(bytes@, base + 4 * j) == le_u16(bytes@, base + 4 * k));
                }
            }
            return Err(DocError::InvalidComment(message("PlcfAtnBkf has an invalid or duplicate end index")));
        }
        if bkc & 0x8080 != 0 {
            return Err(DocError::InvalidComment(message("PlcfAtnBkf has forbidden annotation BKC flags")));
        }
        seen.set(end_index, true);
        starts.push((positions[k], end_index));
        proof {
            assert(starts@ =~= annotation_starts(bytes@, count as int).take(k as int + 1));
            assert forall|e: int| 0 <= e < count implies (seen@[e] <==> exists|j: int| 0 <= j < k + 1 && #[trigger] le_u16(bytes@, base + 4 * j) == e) by {
                if e == end_index {
                    assert(le_u16(bytes@, base + 4 * k) == e);
                }
            }
        }
        k = k + 1;
    }
    assert(starts@ =~= annotation_starts(bytes@, count as int));
    Ok(starts)
}

/// Parses `PlcfAtnBkl`: the end CP of each bookmark.
pub fn parse_annotation_ends(bytes: &[u8], count: usize, main_length: u32) -> (res: Result<Vec<u32>>)
    requires
        count <= 0x3FFB,
    ensures
        res is Ok <==> bytes@.len() == 4 * (count + 1) && annotation_positions_valid(
            le_u32_seq(bytes@, 0, (count + 1) as nat),
            main_length,
        ),
        res matches Ok(v) ==> v@ == le_u32_seq(bytes@, 0, count as nat),
        res is Err ==> res->Err_0.kind() == ErrorKind::InvalidComment,
{
    if bytes.len() != 4 * (count + 1) {
        return Err(DocError::InvalidComment(message("PlcfAtnBkl has the wrong length")));
    }
    let mut positions = read_u32_array(bytes, count + 1);
    validate_annotation_positions(positions.as_slice(), main_length)?;
    positions.pop();
    assert(positions@ =~= le_u32_seq(bytes@, 0, count as nat));
    Ok(positions)
}


// ---- The collection.

/// The location of FIB entry `index` where it is present and non-empty.
pub open spec fn present_location(doc: WordBinaryDocument, index: usize) -> Option<FcLcb> {
    let l = doc.spec_fib().locations.spec_get(index);
    if l is Some && l.unwrap().length != 0 {
        l
    } else {
        None
    }
}

/// The table-stream bytes at `l`, or the failure kind.
pub open spec fn table_bytes(doc: WordBinaryDocument, l: FcLcb) -> Outcome<Seq<u8>> {
    let t = doc.spec_table();
    if l.offset + l.length > t.len() {
        Err(ErrorKind::OutOfBounds)
    } else {
        Ok(t.subrange(l.offset as int, l.offset + l.length))
    }
}

/// Keeps a location only where it is non-empty.
fn non_empty(l: Option<FcLcb>) -> (res: Option<FcLcb>)
    ensures
        res == (if l is Some && l.unwrap().length != 0 {
            l
        } else {
            None
        }),
{
    match l {
        Some(v) => if v.is_empty() {
            None
        } else {
            Some(v)
        },
        None => None,
    }
}

/// The comment reference, body boundary and author bytes of `doc`;
/// `None` where the document has no comments.
pub open spec fn comment_sources(doc: WordBinaryDocument) -> Outcome<Option<(Seq<u8>, Seq<u8>, Seq<u8>)>> {
    let story = doc.spec_stories()[3];
    let r = present_location(doc, INDEX_PLCF_AND_REF);
    let t = present_location(doc, INDEX_PLCF_AND_TXT);
    let a = present_location(doc, INDEX_GRP_XST_ATN_OWNERS);
    if r is None && t is None && a is None && story.cp_start == story.cp_end {
        Ok(None)
    } else if r is None || t is None || a is None {
        Err(ErrorKind::InvalidComment)
    } else {
        match table_bytes(doc, r.unwrap()) {
            Err(e) => Err(e),
            Ok(rb) => match table_bytes(doc, t.unwrap()) {
                Err(e) => Err(e),
                Ok(tb) => match table_bytes(doc, a.unwrap()) {
                    Err(e) => Err(e),
                    Ok(ab) => Ok(Some((rb, tb, ab))),
                },
            },
        }
    }
}

/// Number of records in `PlcfandRef` bytes `rb`.
pub open spec fn reference_count(rb: Seq<u8>) -> int {
    (rb.len() - 4) / 34
}

/// Main-story CP of reference `k`.
pub open spec fn reference_cp(rb: Seq<u8>, k: int) -> u32 {
    le_u32(rb, 4 * k)
}

/// Author index of reference `k`.
pub open spec fn reference_author(rb: Seq<u8>, k: int) -> u16 {
    le_u16(rb, atrd_offset(reference_count(rb), k) + 20)
}

/// Bookmark tag of reference `k`.
pub open spec fn reference_tag(rb: Seq<u8>, k: int) -> i32 {
    le_i32(rb, atrd_offset(reference_count(rb), k) + 26)
}

/// Initials of reference `k`.
pub open spec fn reference_initials(rb: Seq<u8>, k: int) -> Seq<char> {
    utf16_strict(atrd_initials(rb, reference_count(rb), k)).unwrap()
}

/// Bookmark tags of all references.
pub open spec fn reference_tags(rb: Seq<u8>) -> Seq<i32> {
    Seq::new(reference_count(rb) as nat, |k: int| reference_tag(rb, k))
}

/// Why the character at `cp` is not the `0x0005` comment marker, if it is not.
pub open spec fn marker_failure(doc: WordBinaryDocument, cp: u32) -> Option<ErrorKind> {
    match doc.spec_decode(cp, (cp + 1) as u32) {
        Err(e) => Some(e),
        Ok(u) => if u != seq![0x0005u16] {
            Some(ErrorKind::InvalidComment)
        } else {
            None
        },
    }
}

/// Why comment body `[a, b)` is invalid, if it is: it needs the leading marker
/// and a terminal paragraph mark.
pub open spec fn comment_body_failure(doc: WordBinaryDocument, a: u32, b: u32) -> Option<ErrorKind> {
    if b <= a + 1 {
        Some(ErrorKind::InvalidComment)
    } else {
        match marker_failure(doc, a) {
            Some(e) => Some(e),
            None => match doc.spec_decode((b - 1) as u32, b) {
                Err(e) => Some(e),
                Ok(u) => if u != seq![0x000Du16] {
                    Some(ErrorKind::InvalidComment)
                } else {
                    None
                },
            },
        }
    }
}

/// Why comment `k` is invalid, if it is.
pub open spec fn comment_check(
    doc: WordBinaryDocument,
    story: Story,
    rb: Seq<u8>,
    authors_len: int,
    bounds: Seq<u32>,
    k: int,
) -> Option<ErrorKind> {
    if reference_author(rb, k) >= authors_len {
        Some(ErrorKind::InvalidComment)
    } else {
        match marker_failure(doc, reference_cp(rb, k)) {
            Some(e) => Some(e),
            None => if story.cp_start + bounds[k] > u32::MAX || story.cp_start + bounds[k + 1] > u32::MAX {
                Some(ErrorKind::InvalidComment)
            } else {
                match comment_body_failure(
                    doc,
                    (story.cp_start + bounds[k]) as u32,
                    (story.cp_start + bounds[k + 1]) as u32,
                ) {
                    Some(e) => Some(e),
                    None => if k + 1 > u32::MAX {
                        Some(ErrorKind::InvalidComment)
                    } else {
                        None
                    },
                }
            },
        }
    }
}

/// The checks of every comment.
pub open spec fn comment_checks(
    doc: WordBinaryDocument,
    story: Story,
    rb: Seq<u8>,
    authors_len: int,
    bounds: Seq<u32>,
) -> Seq<Option<ErrorKind>> {
    Seq::new(reference_count(rb) as nat, |k: int| comment_check(doc, story, rb, authors_len, bounds, k))
}

/// The author names and body boundaries of valid comment PLCs, or the failure kind.
pub open spec fn comment_base(
    doc: WordBinaryDocument,
    story: Story,
    limits: DocLimits,
    rb: Seq<u8>,
    tb: Seq<u8>,
    ab: Seq<u8>,
) -> Outcome<(Seq<Seq<char>>, Seq<u32>)> {
    let n = reference_count(rb);
    if !comment_references_valid(rb, doc.spec_fib().stories.main) {
        Err(ErrorKind::InvalidComment)
    } else if n > limits.max_comments {
        Err(ErrorKind::ResourceLimit)
    } else {
        match comment_authors(ab) {
            Err(e) => Err(e),
            Ok(a) => match comment_boundaries(tb, n, story) {
                Err(e) => Err(e),
                Ok(b) => match first_failure(comment_checks(doc, story, rb, a.len() as int, b), n) {
                    Some(e) => Err(e),
                    None => Ok((a, b)),
                },
            },
        }
    }
}

/// Whether some comment has an annotated range.
pub open spec fn has_ranged(tags: Seq<i32>) -> bool {
    exists|k: int| 0 <= k < tags.len() && #[trigger] tags[k] != -1
}

/// Why bookmark `k` is invalid, if it is: its range is empty or reversed,
/// or its tag repeats an earlier one.
pub open spec fn range_check(tags: Seq<i32>, starts: Seq<(u32, usize)>, ends: Seq<u32>, k: int) -> Option<
    ErrorKind,
> {
    if starts[k].0 >= ends[starts[k].1 as int] {
        Some(ErrorKind::InvalidComment)
    } else if tags.take(k).contains(tags[k]) {
        Some(ErrorKind::InvalidComment)
    } else {
        None
    }
}

/// The bookmark ranges `(tag, start, end)` read from the tables at `m`, `s`
/// and `e`, in source order, or the failure kind.
pub open spec fn loaded_ranges(doc: WordBinaryDocument, limits: DocLimits, m: FcLcb, s: FcLcb, e: FcLcb) -> Outcome<
    Seq<(i32, u32, u32)>,
> {
    let main = doc.spec_fib().stories.main;
    match table_bytes(doc, m) {
        Err(x) => Err(x),
        Ok(mb) => match table_bytes(doc, s) {
            Err(x) => Err(x),
            Ok(sb) => match table_bytes(doc, e) {
                Err(x) => Err(x),
                Ok(eb) => match bookmark_tags(mb, limits) {
                    Err(x) => Err(x),
                    Ok(tags) => {
                        let n = tags.len() as int;
                        if !annotation_starts_valid(sb, n, main) {
                            Err(ErrorKind::InvalidComment)
                        } else if !(eb.len() == 4 * (n + 1) && annotation_positions_valid(
                            le_u32_seq(eb, 0, (n + 1) as nat),
                            main,
                        )) {
                            Err(ErrorKind::InvalidComment)
                        } else {
                            let starts = annotation_starts(sb, n);
                            let ends = le_u32_seq(eb, 0, n as nat);
                            match first_failure(Seq::new(n as nat, |k: int| range_check(tags, starts, ends, k)), n) {
                                Some(x) => Err(x),
                                None => Ok(Seq::new(n as nat, |k: int| (tags[k], starts[k].0, ends[starts[k].1 as int]))),
                            }
                        }
                    },
                },
            },
        },
    }
}

/// The annotation bookmark ranges of `doc` for comments with bookmark tags
/// `comment_tags`, or the failure kind.
pub open spec fn bookmark_ranges(doc: WordBinaryDocument, limits: DocLimits, comment_tags: Seq<i32>) -> Outcome<
    Seq<(i32, u32, u32)>,
> {
    let m = present_location(doc, INDEX_STTBF_ATN_BKMK);
    let s = present_location(doc, INDEX_PLCF_ATN_BKF);
    let e = present_location(doc, INDEX_PLCF_ATN_BKL);
    if m is None && s is None && e is None && !has_ranged(comment_tags) {
        Ok(seq![])
    } else if m is None || s is None || e is None {
        Err(ErrorKind::InvalidComment)
    } else {
        loaded_ranges(doc, limits, m.unwrap(), s.unwrap(), e.unwrap())
    }
}

/// The range of the first bookmark from `i` on that has `tag`.
pub open spec fn range_lookup(ranges: Seq<(i32, u32, u32)>, tag: i32, i: int) -> Option<(u32, u32)>
    decreases ranges.len() - i,
{
    if i < 0 || i >= ranges.len() {
        None
    } else if ranges[i].0 == tag {
        Some((ranges[i].1, ranges[i].2))
    } else {
        range_lookup(ranges, tag, i + 1)
    }
}

/// Why the anchor of comment `k` is invalid, if it is: its tag repeats an
/// earlier comment's or names no bookmark.
pub open spec fn anchor_check(tags: Seq<i32>, ranges: Seq<(i32, u32, u32)>, k: int) -> Option<ErrorKind> {
    let tag = tags[k];
    if tag == -1 {
        None
    } else if tags.take(k).contains(tag) {
        Some(ErrorKind::InvalidComment)
    } else if range_lookup(ranges, tag, 0) is None {
        Some(ErrorKind::InvalidComment)
    } else {
        None
    }
}

/// The anchor checks of all comments.
pub open spec fn anchor_checks(tags: Seq<i32>, ranges: Seq<(i32, u32, u32)>) -> Seq<Option<ErrorKind>> {
    Seq::new(tags.len(), |k: int| anchor_check(tags, ranges, k))
}

/// The annotated range of comment `k`, if it has one.
pub open spec fn anchor_of(tags: Seq<i32>, ranges: Seq<(i32, u32, u32)>, k: int) -> Option<(u32, u32)> {
    if tags[k] == -1 {
        None
    } else {
        range_lookup(ranges, tags[k], 0)
    }
}

/// Whether `c` is comment `k` built from reference `k`, its body boundaries,
/// its author and its anchor.
pub open spec fn comment_matches(
    c: SourceComment,
    k: int,
    story: Story,
    rb: Seq<u8>,
    authors: Seq<Seq<char>>,
    bounds: Seq<u32>,
    anchor: Option<(u32, u32)>,
) -> bool {
    let idx = reference_author(rb, k) as int;
    &&& c.comment_id == k + 1
    &&& c.reference_cp == reference_cp(rb, k)
    &&& c.cp_start == story.cp_start + bounds[k]
    &&& c.cp_end == story.cp_start + bounds[k + 1]
    &&& c.initials@ == reference_initials(rb, k)
    &&& c.author_index == reference_author(rb, k)
    &&& c.author@ == authors[idx]
    &&& c.bookmark_tag == reference_tag(rb, k)
    &&& c.anchor_cp_start == (match anchor {
        Some(r) => Some(r.0),
        None => None::<u32>,
    })
    &&& c.anchor_cp_end == (match anchor {
        Some(r) => Some(r.1),
        None => None::<u32>,
    })
}

/// What `CommentCollection::parse` gives for `doc`.
pub open spec fn comment_collection_result(doc: WordBinaryDocument, limits: DocLimits, res: Result<CommentCollection>) -> bool {
    let story = doc.spec_stories()[3];
    match comment_sources(doc) {
        Err(e) => res is Err && res->Err_0.kind() == e,
        Ok(None) => res matches Ok(c) && c.spec_authors().len() == 0 && c.spec_comments().len() == 0,
        Ok(Some(src)) => {
            let rb = src.0;
            let n = reference_count(rb);
            let tags = reference_tags(rb);
            match comment_base(doc, story, limits, rb, src.1, src.2) {
                Err(e) => res is Err && res->Err_0.kind() == e,
                Ok(base) => match bookmark_ranges(doc, limits, tags) {
                    Err(e) => res is Err && res->Err_0.kind() == e,
                    Ok(ranges) => match first_failure(anchor_checks(tags, ranges), n) {
                        Some(e) => res is Err && res->Err_0.kind() == e,
                        None => res matches Ok(c) && names(c.spec_authors()) == base.0 && c.spec_comments().len() == n
                            && forall|k: int|
                            0 <= k < n ==> #[trigger] comment_matches(
                                c.spec_comments()[k],
                                k,
                                story,
                                rb,
                                base.0,
                                base.1,
                                anchor_of(tags, ranges, k),
                            ),
                    },
                },
            }
        },
    }
}

/// Validated one-to-one mapping between main-story references and comment bodies.
#[derive(Debug, Clone, Default, PartialEq, Eq)]
pub struct CommentCollection {
    authors: Vec<String>,
    comments: Vec<SourceComment>,
}


/// The bookmark tags of `cs`.
pub open spec fn comment_tags(cs: Seq<SourceComment>) -> Seq<i32> {
    cs.map_values(|c: SourceComment| c.bookmark_tag)
}

/// `c` with its anchor set to `anchor`.
pub open spec fn with_anchor(c: SourceComment, anchor: Option<(u32, u32)>) -> SourceComment {
    SourceComment {
        anchor_cp_start: match anchor {
            Some(r) => Some(r.0),
            None => None,
        },
        anchor_cp_end: match anchor {
            Some(r) => Some(r.1),
            None => None,
        },
        ..c
    }
}

/// Whether reference CPs strictly increase along `cs`.
pub open spec fn sorted_by_reference(cs: Seq<SourceComment>) -> bool {
    forall|i: int, j: int| 0 <= i < j < cs.len() ==> cs[i].reference_cp < cs[j].reference_cp
}

/// The comments of `cs` whose anchored range starts at `cp`, in order.
pub open spec fn starting_at(cs: Seq<SourceComment>, cp: u32) -> Seq<SourceComment>
    decreases cs.len(),
{
    if cs.len() == 0 {
        seq![]
    } else if cs.last().anchor_cp_start == Some(cp) {
        starting_at(cs.drop_last(), cp).push(cs.last())
    } else {
        starting_at(cs.drop_last(), cp)
    }
}

/// The comments of `cs` whose anchored range ends at `cp`, in order.
pub open spec fn ending_at(cs: Seq<SourceComment>, cp: u32) -> Seq<SourceComment>
    decreases cs.len(),
{
    if cs.len() == 0 {
        seq![]
    } else if cs.last().anchor_cp_end == Some(cp) {
        ending_at(cs.drop_last(), cp).push(cs.last())
    } else {
        ending_at(cs.drop_last(), cp)
    }
}

/// The comments that `starting_at` and `ending_at` give for `cp` are exactly the
/// comments of `cs` whose anchored range starts, or ends, at `cp`.
pub proof fn lemma_range_queries(cs: Seq<SourceComment>, cp: u32)
    ensures
        forall|i: int|
            0 <= i < starting_at(cs, cp).len() ==> cs.contains(#[trigger] starting_at(cs, cp)[i]) && starting_at(
                cs,
                cp,
            )[i].anchor_cp_start == Some(cp),
        forall|k: int|
            0 <= k < cs.len() && (#[trigger] cs[k]).anchor_cp_start == Some(cp) ==> starting_at(cs, cp).contains(cs[k]),
        forall|i: int|
            0 <= i < ending_at(cs, cp).len() ==> cs.contains(#[trigger] ending_at(cs, cp)[i]) && ending_at(
                cs,
                cp,
            )[i].anchor_cp_end == Some(cp),
        forall|k: int|
            0 <= k < cs.len() && (#[trigger] cs[k]).anchor_cp_end == Some(cp) ==> ending_at(cs, cp).contains(cs[k]),
    decreases cs.len(),
{
    if cs.len() > 0 {
        let p = cs.drop_last();
        lemma_range_queries(p, cp);
        let n = cs.len() - 1;
        assert(cs[n] == cs.last());
        let r = starting_at(cs, cp);
        let rp = starting_at(p, cp);
        assert forall|i: int| 0 <= i < r.len() implies cs.contains(#[trigger] r[i]) && r[i].anchor_cp_start == Some(cp) by {
            if i < rp.len() {
                assert(r[i] == rp[i]);
                let j = choose|j: int| 0 <= j < p.len() && p[j] == rp[i];
                assert(cs[j] == p[j]);
            } else {
                assert(r[i] == cs[n]);
            }
        }
        assert forall|k: int| 0 <= k < cs.len() && (#[trigger] cs[k]).anchor_cp_start == Some(cp) implies r.contains(cs[k]) by {
            if k < n {
                assert(p[k] == cs[k]);
                let j = choose|j: int| 0 <= j < rp.len() && rp[j] == p[k];
                assert(r[j] == rp[j]);
            } else {
                assert(r[r.len() - 1] == cs[k]);
            }
        }
        let e = ending_at(cs, cp);
        let ep = ending_at(p, cp);
        assert forall|i: int| 0 <= i < e.len() implies cs.contains(#[trigger] e[i]) && e[i].anchor_cp_end == Some(cp) by {
            if i < ep.len() {
                assert(e[i] == ep[i]);
                let j = choose|j: int| 0 <= j < p.len() && p[j] == ep[i];
                assert(cs[j] == p[j]);
            } else {
                assert(e[i] == cs[n]);
            }
        }
        assert forall|k: int| 0 <= k < cs.len() && (#[trigger] cs[k]).anchor_cp_end == Some(cp) implies e.contains(cs[k]) by {
            if k < n {
                assert(p[k] == cs[k]);
                let j = choose|j: int| 0 <= j < ep.len() && ep[j] == p[k];
                assert(e[j] == ep[j]);
            } else {
                assert(e[e.len() - 1] == cs[k]);
            }
        }
    }
}

/// The comments that `starting_at` and `ending_at` give for `cp` are those of
/// `cs` whose anchored range starts, or ends, at `cp`, each once and in the
/// order of `cs`.
pub proof fn lemma_range_queries_filter(cs: Seq<SourceComment>, cp: u32)
    ensures
        starting_at(cs, cp) == cs.filter(|c: SourceComment| c.anchor_cp_start == Some(cp)),
        ending_at(cs, cp) == cs.filter(|c: SourceComment| c.anchor_cp_end == Some(cp)),
    decreases cs.len(),
{
    reveal(Seq::filter);
    if cs.len() > 0 {
        lemma_range_queries_filter(cs.drop_last(), cp);
    }
}

/// In a collection parsed from a document, the range queries for `cp` give
/// exactly the comments whose anchored range starts, or ends, at `cp`, each
/// once and in collection order; a comment whose bookmark tag is -1 has no
/// anchor and is given by neither.
pub proof fn lemma_parsed_range_queries(doc: WordBinaryDocument, limits: DocLimits, c: CommentCollection, cp: u32)
    requires
        comment_collection_result(doc, limits, Ok::<CommentCollection, DocError>(c)),
    ensures
        starting_at(c.spec_comments(), cp) == c.spec_comments().filter(
            |x: SourceComment| x.anchor_cp_start == Some(cp),
        ),
        ending_at(c.spec_comments(), cp) == c.spec_comments().filter(|x: SourceComment| x.anchor_cp_end == Some(cp)),
        forall|k: int|
            0 <= k < c.spec_comments().len() && (#[trigger] c.spec_comments()[k]).bookmark_tag == -1 ==> {
                &&& c.spec_comments()[k].anchor_cp_start is None
                &&& c.spec_comments()[k].anchor_cp_end is None
                &&& !starting_at(c.spec_comments(), cp).contains(c.spec_comments()[k])
                &&& !ending_at(c.spec_comments(), cp).contains(c.spec_comments()[k])
            },
{
    let cs = c.spec_comments();
    lemma_range_queries_filter(cs, cp);
    lemma_range_queries(cs, cp);
    assert forall|k: int| 0 <= k < cs.len() && (#[trigger] cs[k]).bookmark_tag == -1 implies {
        &&& cs[k].anchor_cp_start is None
        &&& cs[k].anchor_cp_end is None
        &&& !starting_at(cs, cp).contains(cs[k])
        &&& !ending_at(cs, cp).contains(cs[k])
    } by {
        match comment_sources(doc) {
            Ok(Some(src)) => {
                let rb = src.0;
                let story = doc.spec_stories()[3];
                let tags = reference_tags(rb);
                let base = comment_base(doc, story, limits, rb, src.1, src.2)->Ok_0;
                let ranges = bookmark_ranges(doc, limits, tags)->Ok_0;
                assert(comment_matches(cs[k], k, story, rb, base.0, base.1, anchor_of(tags, ranges, k)));
                assert(tags[k] == -1);
            },
            _ => {},
        }
        if starting_at(cs, cp).contains(cs[k]) {
            let i = choose|i: int| 0 <= i < starting_at(cs, cp).len() && starting_at(cs, cp)[i] == cs[k];
            assert(starting_at(cs, cp)[i].anchor_cp_start == Some(cp));
        }
        if ending_at(cs, cp).contains(cs[k]) {
            let i = choose|i: int| 0 <= i < ending_at(cs, cp).len() && ending_at(cs, cp)[i] == cs[k];
            assert(ending_at(cs, cp)[i].anchor_cp_end == Some(cp));
        }
    }
}

/// Rejects a CP whose character is not the `0x0005` comment marker.
fn validate_marker(document: &WordBinaryDocument, cp: u32) -> (res: Result<()>)
    requires
        cp < u32::MAX,
    ensures
        match marker_failure(*document, cp) {
            None => res is Ok,
            Some(e) => res is Err && res->Err_0.kind() == e,
        },
{
    let marker = document.decode_range(cp, cp + 1)?;
    if !(marker.utf16.len() == 1 && marker.utf16[0] == 0x0005) {
        proof {
            if marker.utf16@ == seq![0x0005u16] {
                assert(marker.utf16@[0] == 0x0005);
            }
        }
        return Err(DocError::InvalidComment(message("comment CP is not the required 0x0005 marker")));
    }
    assert(marker.utf16@ =~= seq![0x0005u16]);
    Ok(())
}

/// Rejects a comment body without its leading marker and terminal paragraph mark.
fn validate_body(document: &WordBinaryDocument, cp_start: u32, cp_end: u32) -> (res: Result<()>)
    ensures
        match comment_body_failure(*document, cp_start, cp_end) {
            None => res is Ok,
            Some(e) => res is Err && res->Err_0.kind() == e,
        },
{
    if cp_start == u32::MAX || cp_end <= cp_start + 1 {
        return Err(DocError::InvalidComment(message("comment body has no marker and terminal paragraph")));
    }
    validate_marker(document, cp_start)?;
    let terminal = document.decode_range(cp_end - 1, cp_end)?;
    if !(terminal.utf16.len() == 1 && terminal.utf16[0] == 0x000D) {
        proof {
            if terminal.utf16@ == seq![0x000Du16] {
                assert(terminal.utf16@[0] == 0x000D);
            }
        }
        return Err(DocError::InvalidComment(message("comment body does not end in a paragraph mark")));
    }
    assert(terminal.utf16@ =~= seq![0x000Du16]);
    Ok(())
}

/// Whether `tag` occurs among the first `k` of `tags`.
fn contains_before(tags: &[i32], k: usize, tag: i32) -> (res: bool)
    requires
        k <= tags@.len(),
    ensures
        res == tags@.take(k as int).contains(tag),
{
    let mut j: usize = 0;
    while j < k
        invariant
            k <= tags@.len(),
            j <= k,
            forall|i: int| 0 <= i < j ==> tags@[i] != tag,
        decreases k - j,
    {
        if tags[j] == tag {
            assert(tags@.take(k as int)[j as int] == tag);
            return true;
        }
        j = j + 1;
    }
    proof {
        if tags@.take(k as int).contains(tag) {
            let i = choose|i: int| 0 <= i < k && tags@.take(k as int)[i] == tag;
            assert(tags@[i] == tag);
        }
    }
    false
}

/// The range of the first bookmark with `tag`.
fn find_range(ranges: &[(i32, u32, u32)], tag: i32) -> (res: Option<(u32, u32)>)
    ensures
        res == range_lookup(ranges@, tag, 0),
{
    let mut i: usize = 0;
    while i < ranges.len()
        invariant
            i <= ranges@.len(),
            range_lookup(ranges@, tag, 0) == range_lookup(ranges@, tag, i as int),
        decreases ranges@.len() - i,
    {
        let (t, start, end) = ranges[i];
        if t == tag {
            return Some((start, end));
        }
        i = i + 1;
    }
    None
}

/// Reads and validates the annotation bookmark tables at `metadata`,
/// `starts` and `ends`: one `(tag, start, end)` range per bookmark.
fn load_annotation_ranges(
    document: &WordBinaryDocument,
    metadata: FcLcb,
    starts: FcLcb,
    ends: FcLcb,
    limits: DocLimits,
) -> (res: Result<Vec<(i32, u32, u32)>>)
    ensures
        match loaded_ranges(*document, limits, metadata, starts, ends) {
            Err(e) => res is Err && res->Err_0.kind() == e,
            Ok(r) => res matches Ok(v) && v@ == r,
        },
{
    let table = document.table_stream();
    let main = document.fib().stories.main;
    let metadata_bytes = checked_slice(table, metadata.offset, metadata.length, "SttbfAtnBkmk")?;
    let start_bytes = checked_slice(table, starts.offset, starts.length, "PlcfAtnBkf")?;
    let end_bytes = checked_slice(table, ends.offset, ends.length, "PlcfAtnBkl")?;
    let tags = parse_annotation_metadata(metadata_bytes, limits)?;
    let count = tags.len();
    assert(count <= 0x3FFB);
    let start_list = parse_annotation_starts(start_bytes, count, main)?;
    let end_list = parse_annotation_ends(end_bytes, count, main)?;
    let ghost st = annotation_starts(start_bytes@, count as int);
    let ghost en = le_u32_seq(end_bytes@, 0, count as nat);
    let ghost tg = tags@;
    let ghost checks = Seq::new(count as nat, |k: int| range_check(tg, st, en, k));
    let ghost expected = Seq::new(count as nat, |k: int| (tg[k], st[k].0, en[st[k].1 as int]));
    assert(forall|k: int| 0 <= k < count ==> #[trigger] st[k].1 < count);
    assert(loaded_ranges(*document, limits, metadata, starts, ends) == match first_failure(checks, count as int) {
        Some(x) => Outcome::<Seq<(i32, u32, u32)>>::Err(x),
        None => Outcome::<Seq<(i32, u32, u32)>>::Ok(expected),
    });
    let mut ranges: Vec<(i32, u32, u32)> = Vec::new();
    let mut k: usize = 0;
    while k < count
        invariant
            count == tg.len(),
            tags@ == tg,
            start_list@ == st,
            end_list@ == en,
            st.len() == count,
            en.len() == count,
            forall|j: int| 0 <= j < count ==> #[trigger] st[j].1 < count,
            checks == Seq::new(count as nat, |k: int| range_check(tg, st, en, k)),
            expected == Seq::new(count as nat, |k: int| (tg[k], st[k].0, en[st[k].1 as int])),
            k <= count,
            first_failure(checks, k as int) is None,
            ranges@ == expected.take(k as int),
            loaded_ranges(*document, limits, metadata, starts, ends) == match first_failure(checks, count as int) {
                Some(x) => Outcome::<Seq<(i32, u32, u32)>>::Err(x),
                None => Outcome::<Seq<(i32, u32, u32)>>::Ok(expected),
            },
        decreases count - k,
    {
        let (start, end_index) = start_list[k];
        assert(st[k as int].1 < count);
        let end = end_list[end_index];
        let tag = tags[k];
        if start >= end || contains_before(tags.as_slice(), k, tag) {
            proof {
                assert(checks[k as int] is Some);
                assert(first_failure(checks, k as int + 1) == checks[k as int]);
                lemma_first_failure_persists(checks, k as int + 1, count as int);
            }
            return Err(DocError::InvalidComment(message("annotation bookmark range is empty, reversed or duplicated")));
        }
        ranges.push((tag, start, end));
        proof {
            assert(checks[k as int] is None);
            assert(ranges@ =~= expected.take(k as int + 1));
        }
        k = k + 1;
    }
    assert(ranges@ =~= expected);
    Ok(ranges)
}

impl CommentCollection {
    /// The author names.
    pub closed spec fn spec_authors(&self) -> Seq<String> {
        self.authors@
    }

    /// The comments in reference order.
    pub closed spec fn spec_comments(&self) -> Seq<SourceComment> {
        self.comments@
    }

    /// A collection of the given authors and comments.
    pub fn from_parts(authors: Vec<String>, comments: Vec<SourceComment>) -> (res: Self)
        ensures
            res.spec_authors() == authors@,
            res.spec_comments() == comments@,
    {
        CommentCollection { authors, comments }
    }

    /// Parses the comment PLCs, authors and annotation bookmarks of `document`.
    #[verifier::rlimit(40)]
    pub fn parse(document: &WordBinaryDocument, limits: DocLimits) -> (res: Result<Self>)
        ensures
            comment_collection_result(*document, limits, res),
            res matches Ok(c) ==> sorted_by_reference(c.spec_comments()),
    {
        let stories = document.stories();
        let story = &stories[3];
        let locations = &document.fib().locations;
        let reference_location = non_empty(locations.comment_references());
        let text_location = non_empty(locations.comment_text());
        let author_location = non_empty(locations.comment_authors());
        match (reference_location, text_location, author_location) {
            (None, None, None) => {
                if story.cp_start == story.cp_end {
                    return Ok(CommentCollection { authors: Vec::new(), comments: Vec::new() });
                }
                Err(DocError::InvalidComment(message("comment story and its PLCs must all be present or all be absent")))
            },
            (Some(reference_location), Some(text_location), Some(author_location)) => {
                let table = document.table_stream();
                let reference_bytes = checked_slice(table, reference_location.offset, reference_location.length, "PlcfandRef")?;
                let boundary_bytes = checked_slice(table, text_location.offset, text_location.length, "PlcfandTxt")?;
                let author_bytes = checked_slice(table, author_location.offset, author_location.length, "GrpXstAtnOwners")?;
                let collection = Self::from_plcs(document, story, reference_bytes, boundary_bytes, author_bytes, limits)?;
                let ghost before = collection.comments@;
                let ghost rb = reference_bytes@;
                let ghost base = comment_base(*document, *story, limits, rb, boundary_bytes@, author_bytes@)->Ok_0;
                proof {
                    assert(comment_base(*document, *story, limits, rb, boundary_bytes@, author_bytes@) is Ok);
                    assert forall|k: int| 0 <= k < before.len() implies comment_tags(before)[k] == reference_tags(rb)[k] by {
                        assert(comment_matches(before[k], k, *story, rb, base.0, base.1, None));
                    }
                    assert(comment_tags(before) =~= reference_tags(rb));
                    assert forall|k: int| 0 <= k < before.len() implies (#[trigger] before[k]).anchor_cp_start is None
                        && before[k].anchor_cp_end is None by {
                        assert(comment_matches(before[k], k, *story, rb, base.0, base.1, None));
                    }
                }
                let res = collection.attach_annotation_bookmarks(document, limits);
                proof {
                    if res is Ok {
                        let c = res->Ok_0;
                        let ranges = bookmark_ranges(*document, limits, reference_tags(rb))->Ok_0;
                        assert forall|k: int| 0 <= k < c.comments@.len() implies #[trigger] comment_matches(
                            c.comments@[k],
                            k,
                            *story,
                            rb,
                            base.0,
                            base.1,
                            anchor_of(reference_tags(rb), ranges, k),
                        ) by {
                            assert(comment_matches(before[k], k, *story, rb, base.0, base.1, None));
                            assert(c.comments@[k] == with_anchor(before[k], anchor_of(comment_tags(before), ranges, k)));
                        }
                        assert forall|i: int, j: int| 0 <= i < j < c.comments@.len() implies c.comments@[i].reference_cp
                            < c.comments@[j].reference_cp by {
                            assert(c.comments@[i] == with_anchor(before[i], anchor_of(comment_tags(before), ranges, i)));
                            assert(c.comments@[j] == with_anchor(before[j], anchor_of(comment_tags(before), ranges, j)));
                        }
                    }
                }
                res
            },
            _ => Err(DocError::InvalidComment(message("comment story and its PLCs must all be present or all be absent"))),
        }
    }

    /// Builds the comments from their reference, boundary and author tables.
    #[verifier::rlimit(60)]
    fn from_plcs(
        document: &WordBinaryDocument,
        story: &Story,
        reference_bytes: &[u8],
        boundary_bytes: &[u8],
        author_bytes: &[u8],
        limits: DocLimits,
    ) -> (res: Result<Self>)
        requires
            story.cp_start <= story.cp_end,
        ensures
            match comment_base(*document, *story, limits, reference_bytes@, boundary_bytes@, author_bytes@) {
                Err(e) => res is Err && res->Err_0.kind() == e,
                Ok(base) => res matches Ok(c) && names(c.authors@) == base.0 && c.comments@.len()
                    == reference_count(reference_bytes@) && sorted_by_reference(c.comments@) && forall|k: int|
                    0 <= k < reference_count(reference_bytes@) ==> #[trigger] comment_matches(
                        c.comments@[k],
                        k,
                        *story,
                        reference_bytes@,
                        base.0,
                        base.1,
                        None,
                    ),
            },
    {
        let main = document.fib().stories.main;
        let references = parse_references(reference_bytes, main)?;
        let count = references.len();
        if count > limits.max_comments {
            return Err(
                DocError::ResourceLimit { resource: "comment", actual: count as u64, limit: limits.max_comments as u64 },
            );
        }
        let authors = parse_authors(author_bytes)?;
        let boundaries = parse_boundaries(boundary_bytes, count, story)?;
        let ghost rb = reference_bytes@;
        let ghost a = names(authors@);
        let ghost b = boundaries@;
        let ghost checks = comment_checks(*document, *story, rb, a.len() as int, b);
        assert(comment_base(*document, *story, limits, rb, boundary_bytes@, author_bytes@) == match first_failure(checks, count as int) {
            Some(e) => Outcome::<(Seq<Seq<char>>, Seq<u32>)>::Err(e),
            None => Outcome::<(Seq<Seq<char>>, Seq<u32>)>::Ok((a, b)),
        });
        let mut comments: Vec<SourceComment> = Vec::new();
        let mut k: usize = 0;
        while k < count
            invariant
                comment_base(*document, *story, limits, rb, boundary_bytes@, author_bytes@) == match first_failure(checks, count as int) {
                    Some(e) => Outcome::<(Seq<Seq<char>>, Seq<u32>)>::Err(e),
                    None => Outcome::<(Seq<Seq<char>>, Seq<u32>)>::Ok((a, b)),
                },
                rb == reference_bytes@,
                count == reference_count(rb),
                references@.len() == count,
                forall|j: int| 0 <= j < count ==> #[trigger] references@[j].decoded_from(rb, j),
                comment_references_valid(rb, main),
                main == document.spec_fib().stories.main,
                a == names(authors@),
                a.len() == authors@.len(),
                b == boundaries@,
                comment_boundaries(boundary_bytes@, count as int, *story) == Outcome::<Seq<u32>>::Ok(b),
                b.len() == count + 1,
                strictly_increasing(b),
                checks == comment_checks(*document, *story, rb, a.len() as int, b),
                story.cp_start <= story.cp_end,
                k <= count,
                first_failure(checks, k as int) is None,
                comments@.len() == k,
                forall|j: int| 0 <= j < k ==> #[trigger] comment_matches(comments@[j], j, *story, rb, a, b, None),
                forall|i: int, j: int| 0 <= i < j < k ==> comments@[i].reference_cp < comments@[j].reference_cp,
            decreases count - k,
        {
            let reference = &references[k];
            assert(reference.decoded_from(rb, k as int));
            let author_index = reference.author_index as usize;
            if author_index >= authors.len() {
                proof {
                    assert(first_failure(checks, k as int + 1) == checks[k as int]);
                    lemma_first_failure_persists(checks, k as int + 1, count as int);
                }
                return Err(DocError::InvalidComment(message("ATRDPre10 author index is outside GrpXstAtnOwners")));
            }
            proof {
                let positions = le_u32_seq(rb, 0, (count + 1) as nat);
                assert(!any_at_least(positions, count as int, main as int));
                assert(positions[k as int] < main);
            }
            match validate_marker(document, reference.cp) {
                Ok(()) => {},
                Err(e) => {
                    proof {
                        assert(first_failure(checks, k as int + 1) == checks[k as int]);
                        lemma_first_failure_persists(checks, k as int + 1, count as int);
                    }
                    return Err(e);
                },
            }
            if boundaries[k] > u32::MAX - story.cp_start || boundaries[k + 1] > u32::MAX - story.cp_start {
                proof {
                    assert(first_failure(checks, k as int + 1) == checks[k as int]);
                    lemma_first_failure_persists(checks, k as int + 1, count as int);
                }
                return Err(DocError::InvalidComment(message("comment body CP overflow")));
            }
            let cp_start = story.cp_start + boundaries[k];
            let cp_end = story.cp_start + boundaries[k + 1];
            match validate_body(document, cp_start, cp_end) {
                Ok(()) => {},
                Err(e) => {
                    proof {
                        assert(first_failure(checks, k as int + 1) == checks[k as int]);
                        lemma_first_failure_persists(checks, k as int + 1, count as int);
                    }
                    return Err(e);
                },
            }
            if k >= 0xFFFF_FFFF {
                proof {
                    assert(first_failure(checks, k as int + 1) == checks[k as int]);
                    lemma_first_failure_persists(checks, k as int + 1, count as int);
                }
                return Err(DocError::InvalidComment(message("comment identifier overflow")));
            }
            proof {
                assert(checks[k as int] is None);
                assert(first_failure(checks, k as int + 1) is None);
                let positions = le_u32_seq(rb, 0, (count + 1) as nat);
                assert(strictly_increasing(positions));
                assert forall|i: int| 0 <= i < k implies comments@[i].reference_cp < reference.cp by {
                    assert(comment_matches(comments@[i], i, *story, rb, a, b, None));
                    assert(comments@[i].reference_cp == positions[i]);
                    assert(reference.cp == positions[k as int]);
                }
            }
            comments.push(
                SourceComment {
                    comment_id: (k + 1) as u32,
                    reference_cp: reference.cp,
                    cp_start,
                    cp_end,
                    initials: reference.initials.clone(),
                    author_index: reference.author_index,
                    author: authors[author_index].clone(),
                    bookmark_tag: reference.bookmark_tag,
                    anchor_cp_start: None,
                    anchor_cp_end: None,
                },
            );
            proof {
                assert(comment_matches(comments@[k as int], k as int, *story, rb, a, b, None));
            }
            k = k + 1;
        }
        Ok(CommentCollection { authors, comments })
    }

    /// Resolves the annotated range of every ranged comment.
    #[verifier::rlimit(40)]
    fn attach_annotation_bookmarks(self, document: &WordBinaryDocument, limits: DocLimits) -> (res: Result<Self>)
        requires
            forall|k: int|
                0 <= k < self.comments@.len() ==> (#[trigger] self.comments@[k]).anchor_cp_start is None
                    && self.comments@[k].anchor_cp_end is None,
        ensures
            match bookmark_ranges(*document, limits, comment_tags(self.comments@)) {
                Err(e) => res is Err && res->Err_0.kind() == e,
                Ok(ranges) => match first_failure(
                    anchor_checks(comment_tags(self.comments@), ranges),
                    self.comments@.len() as int,
                ) {
                    Some(e) => res is Err && res->Err_0.kind() == e,
                    None => res matches Ok(c) && c.authors@ == self.authors@ && c.comments@.len()
                        == self.comments@.len() && forall|k: int|
                        0 <= k < self.comments@.len() ==> #[trigger] c.comments@[k] == with_anchor(
                            self.comments@[k],
                            anchor_of(comment_tags(self.comments@), ranges, k),
                        ),
                },
            },
    {
        let mut this = self;
        let ghost original = this.comments@;
        let ghost original_authors = this.authors@;
        let ghost tg = comment_tags(original);
        let count = this.comments.len();
        let mut tags: Vec<i32> = Vec::new();
        let mut has_ranged_comment = false;
        let mut k: usize = 0;
        while k < count
            invariant
                count == original.len(),
                this.comments@ == original,
                tg == comment_tags(original),
                k <= count,
                tags@ == tg.take(k as int),
                has_ranged_comment == has_ranged(tg.take(k as int)),
            decreases count - k,
        {
            let tag = this.comments[k].bookmark_tag;
            proof {
                assert(tg.take(k as int + 1) =~= tg.take(k as int).push(tag));
                if has_ranged(tg.take(k as int)) {
                    let j = choose|j: int| 0 <= j < k && #[trigger] tg.take(k as int)[j] != -1;
                    assert(tg.take(k as int + 1)[j] != -1);
                }
                if has_ranged(tg.take(k as int + 1)) && tag == -1 {
                    let j = choose|j: int| 0 <= j < k + 1 && #[trigger] tg.take(k as int + 1)[j] != -1;
                    assert(tg.take(k as int)[j] != -1);
                }
            }
            tags.push(tag);
            if tag != -1 {
                has_ranged_comment = true;
                assert(tg.take(k as int + 1)[k as int] != -1);
            }
            k = k + 1;
        }
        assert(tg.take(count as int) =~= tg);
        let locations = &document.fib().locations;
        let metadata = non_empty(locations.comment_bookmarks());
        let starts = non_empty(locations.comment_bookmark_starts());
        let ends = non_empty(locations.comment_bookmark_ends());
        let ranges = match (metadata, starts, ends) {
            (None, None, None) => {
                if !has_ranged_comment {
                    proof {
                        assert forall|k: int| 0 <= k < count implies #[trigger] original[k] == with_anchor(
                            original[k],
                            anchor_of(tg, seq![], k),
                        ) by {
                            assert(tg[k] == original[k].bookmark_tag);
                            assert(tg[k] == -1);
                        }
                        assert(first_failure(anchor_checks(tg, seq![]), count as int) is None) by {
                            assert forall|k: int| 0 <= k < count implies #[trigger] anchor_checks(tg, seq![])[k] is None by {
                                assert(tg[k] == -1);
                            }
                            lemma_no_failure(anchor_checks(tg, seq![]), count as int);
                        }
                    }
                    return Ok(this);
                }
                return Err(DocError::InvalidComment(message("a ranged comment references an absent annotation bookmark table")));
            },
            (Some(metadata), Some(starts), Some(ends)) => load_annotation_ranges(document, metadata, starts, ends, limits)?,
            _ => {
                return Err(DocError::InvalidComment(message("SttbfAtnBkmk, PlcfAtnBkf, and PlcfAtnBkl must all be present or all be absent")));
            },
        };
        let ghost rs = ranges@;
        let ghost checks = anchor_checks(tg, rs);
        assert(bookmark_ranges(*document, limits, tg) == Outcome::<Seq<(i32, u32, u32)>>::Ok(rs));
        let mut k: usize = 0;
        while k < count
            invariant
                bookmark_ranges(*document, limits, tg) == Outcome::<Seq<(i32, u32, u32)>>::Ok(rs),
                original == self.comments@,
                forall|j: int|
                    0 <= j < count ==> (#[trigger] original[j]).anchor_cp_start is None
                        && original[j].anchor_cp_end is None,
                count == original.len(),
                tags@ == tg,
                tg == comment_tags(original),
                ranges@ == rs,
                checks == anchor_checks(tg, rs),
                this.authors@ == original_authors,
                k <= count,
                this.comments@.len() == count,
                first_failure(checks, k as int) is None,
                forall|j: int| 0 <= j < k ==> #[trigger] this.comments@[j] == with_anchor(original[j], anchor_of(tg, rs, j)),
                forall|j: int| k <= j < count ==> #[trigger] this.comments@[j] == original[j],
            decreases count - k,
        {
            let tag = tags[k];
            if tag != -1 {
                let repeated = contains_before(tags.as_slice(), k, tag);
                let found = find_range(ranges.as_slice(), tag);
                if repeated || found.is_none() {
                    proof {
                        assert(first_failure(checks, k as int + 1) == checks[k as int]);
                        lemma_first_failure_persists(checks, k as int + 1, count as int);
                    }
                    return Err(DocError::InvalidComment(message("comment bookmark tag is repeated or names no annotation bookmark")));
                }
                let (start, end) = found.unwrap();
                this.comments[k].anchor_cp_start = Some(start);
                this.comments[k].anchor_cp_end = Some(end);
            }
            proof {
                assert(checks[k as int] is None);
                assert(original[k as int].bookmark_tag == tg[k as int]);
                assert(this.comments@[k as int] == with_anchor(original[k as int], anchor_of(tg, rs, k as int)));
            }
            k = k + 1;
        }
        Ok(this)
    }

    /// Unique author names in source string-table order.
    pub fn authors(&self) -> (res: &[String])
        ensures
            res@ == self.spec_authors(),
    {
        self.authors.as_slice()
    }

    /// Comments in reference order.
    pub fn comments(&self) -> (res: &[SourceComment])
        ensures
            res@ == self.spec_comments(),
    {
        self.comments.as_slice()
    }

    /// The comment whose reference character is at `cp`.
    pub fn reference_at(&self, cp: u32) -> (res: Option<&SourceComment>)
        requires
            sorted_by_reference(self.spec_comments()),
        ensures
            match res {
                Some(c) => exists|k: int|
                    0 <= k < self.spec_comments().len() && *c == #[trigger] self.spec_comments()[k]
                        && c.reference_cp == cp,
                None => forall|k: int|
                    0 <= k < self.spec_comments().len() ==> #[trigger] self.spec_comments()[k].reference_cp != cp,
            },
    {
        let mut low: usize = 0;
        let mut high: usize = self.comments.len();
        while low < high
            invariant
                high <= self.comments@.len(),
                low <= high,
                sorted_by_reference(self.comments@),
                forall|k: int| 0 <= k < low ==> #[trigger] self.comments@[k].reference_cp < cp,
                forall|k: int| high <= k < self.comments@.len() ==> #[trigger] self.comments@[k].reference_cp > cp,
            decreases high - low,
        {
            let mid = low + (high - low) / 2;
            let found = self.comments[mid].reference_cp;
            if found == cp {
                return Some(&self.comments[mid]);
            } else if found < cp {
                low = mid + 1;
            } else {
                high = mid;
            }
        }
        None
    }

    /// Ranged comments beginning at a main-story CP, in comment order.
    pub fn ranges_starting_at(&self, cp: u32) -> (res: Vec<&SourceComment>)
        ensures
            res@.map_values(|c: &SourceComment| *c) == starting_at(self.spec_comments(), cp),
    {
        let mut out: Vec<&SourceComment> = Vec::new();
        let mut k: usize = 0;
        while k < self.comments.len()
            invariant
                k <= self.comments@.len(),
                out@.map_values(|c: &SourceComment| *c) == starting_at(self.comments@.take(k as int), cp),
            decreases self.comments@.len() - k,
        {
            assert(self.comments@.take(k as int + 1).drop_last() =~= self.comments@.take(k as int));
            let c = &self.comments[k];
            if c.anchor_cp_start == Some(cp) {
                out.push(c);
            }
            assert(out@.map_values(|c: &SourceComment| *c) =~= starting_at(self.comments@.take(k as int + 1), cp));
            k = k + 1;
        }
        assert(self.comments@.take(k as int) =~= self.comments@);
        out
    }

    /// Ranged comments ending immediately before a main-story CP, in comment order.
    pub fn ranges_ending_at(&self, cp: u32) -> (res: Vec<&SourceComment>)
        ensures
            res@.map_values(|c: &SourceComment| *c) == ending_at(self.spec_comments(), cp),
    {
        let mut out: Vec<&SourceComment> = Vec::new();
        let mut k: usize = 0;
        while k < self.comments.len()
            invariant
                k <= self.comments@.len(),
                out@.map_values(|c: &SourceComment| *c) == ending_at(self.comments@.take(k as int), cp),
            decreases self.comments@.len() - k,
        {
            assert(self.comments@.take(k as int + 1).drop_last() =~= self.comments@.take(k as int));
            let c = &self.comments[k];
            if c.anchor_cp_end == Some(cp) {
                out.push(c);
            }
            assert(out@.map_values(|c: &SourceComment| *c) =~= ending_at(self.comments@.take(k as int + 1), cp));
            k = k + 1;
        }
        assert(self.comments@.take(k as int) =~= self.comments@);
        out
    }
}

/// With no failing check among the first `k`, there is no first failure.
proof fn lemma_no_failure(fs: Seq<Option<ErrorKind>>, k: int)
    requires
        k <= fs.len(),
        forall|i: int| 0 <= i < k ==> #[trigger] fs[i] is None,
    ensures
        first_failure(fs, k) is None,
    decreases k,
{
    if k > 0 {
        lemma_no_failure(fs, k - 1);
    }
}

} // verus!

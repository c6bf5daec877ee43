//! Source-backed Word field reconstruction from per-story `PlcfFld` PLCs.

use vstd::prelude::*;
use vstd::multiset::Multiset;

use crate::binary::{ByteCursor, checked_slice, le_u16, le_u32, le_u32_seq, read_u16_le, read_u32_le, strictly_increasing};
use crate::document::{Story, StoryKind, WordBinaryDocument, story_kind_at};
use crate::error::{DocError, ErrorKind, Outcome, Result, err_kind, first_failure, lemma_first_failure_persists, message};
use crate::fib::FcLcb;
use crate::limits::DocLimits;

verus! {

/// A balanced field range. CPs are global source positions.
#[derive(Debug, Clone, Copy, PartialEq, Eq, Structural)]
pub struct Field {
    pub story: StoryKind,
    pub cp_begin: u32,
    pub cp_separator: Option<u32>,
    pub cp_end: u32,
    /// Last parsed `flt` code from the begin record.
    pub field_type: u8,
    /// Zero for a top-level field, positive for nested fields.
    pub depth: u32,
}

impl Field {
    /// First CP of the field instruction.
    pub fn instruction_start(self) -> (res: u32)
        requires
            self.cp_begin < u32::MAX,
        ensures
            res == self.cp_begin + 1,
    {
        self.cp_begin + 1
    }

    /// Exclusive end of the field instruction.
    pub fn instruction_end(self) -> (res: u32)
        ensures
            res == match self.cp_separator {
                Some(s) => s,
                None => self.cp_end,
            },
    {
        match self.cp_separator {
            Some(separator) => separator,
            None => self.cp_end,
        }
    }

    /// The result range after the separator, when there is one.
    pub fn result_range(self) -> (res: Option<(u32, u32)>)
        requires
            self.cp_separator matches Some(s) ==> s < u32::MAX,
        ensures
            res == match self.cp_separator {
                Some(s) => Some(((s + 1) as u32, self.cp_end)),
                None => None,
            },
    {
        match self.cp_separator {
            Some(separator) => Some((separator + 1, self.cp_end)),
            None => None,
        }
    }
}

/// A field whose end has not been seen yet.
#[derive(Debug, Clone, Copy, PartialEq, Eq, Structural)]
pub struct OpenField {
    pub cp_begin: u32,
    pub cp_separator: Option<u32>,
    pub field_type: u8,
    pub depth: u32,
}

/// Balancing the first `k` `(cp, kind, properties)` records: the open
/// fields and the closed fields in closing order, or `None` when the
/// sequence is unbalanced.
pub open spec fn balance(story: StoryKind, records: Seq<(u32, u8, u8)>, k: int) -> Option<
    (Seq<OpenField>, Seq<Field>),
>
    decreases k,
{
    if k <= 0 {
        Some((seq![], seq![]))
    } else {
        match balance(story, records, k - 1) {
            None => None,
            Some((stack, out)) => {
                let (cp, kind, properties) = records[k - 1];
                if kind == 0x13 {
                    if stack.len() > u32::MAX {
                        None
                    } else {
                        Some(
                            (
                                stack.push(
                                    OpenField {
                                        cp_begin: cp,
                                        cp_separator: None,
                                        field_type: properties,
                                        depth: stack.len() as u32,
                                    },
                                ),
                                out,
                            ),
                        )
                    }
                } else if kind == 0x14 {
                    if stack.len() == 0 || stack.last().cp_separator is Some {
                        None
                    } else {
                        Some(
                            (
                                stack.update(
                                    stack.len() - 1,
                                    OpenField { cp_separator: Some(cp), ..stack.last() },
                                ),
                                out,
                            ),
                        )
                    }
                } else if stack.len() == 0 {
                    None
                } else {
                    let f = stack.last();
                    Some(
                        (
                            stack.drop_last(),
                            out.push(
                                Field {
                                    story,
                                    cp_begin: f.cp_begin,
                                    cp_separator: f.cp_separator,
                                    cp_end: cp,
                                    field_type: f.field_type,
                                    depth: f.depth,
                                },
                            ),
                        ),
                    )
                }
            },
        }
    }
}

/// Once the records are unbalanced, later records do not balance them.
pub proof fn lemma_balance_none_persists(story: StoryKind, records: Seq<(u32, u8, u8)>, k: int, n: int)
    requires
        0 <= k <= n,
        balance(story, records, k) is None,
    ensures
        balance(story, records, n) is None,
    decreases n - k,
{
    if n > k {
        lemma_balance_none_persists(story, records, k, n - 1);
    }
}

/// The closed fields of a complete, balanced record sequence.
pub open spec fn balanced_fields(story: StoryKind, records: Seq<(u32, u8, u8)>) -> Option<Seq<Field>> {
    match balance(story, records, records.len() as int) {
        Some((stack, out)) => if stack.len() == 0 {
            Some(out)
        } else {
            None
        },
        None => None,
    }
}

/// Matches `begin`/`separator`/`end` field characters into nested fields.
pub fn balance_records(story: StoryKind, records: &[(u32, u8, u8)], output: &mut Vec<Field>) -> (res:
    Result<()>)
    requires
        forall|i: int| 0 <= i < records@.len() ==> 0x13 <= (#[trigger] records@[i]).1 <= 0x15,
    ensures
        res is Ok <==> balanced_fields(story, records@) is Some,
        res is Ok ==> final(output)@ == old(output)@ + balanced_fields(story, records@).unwrap(),
        res is Err ==> res->Err_0.kind() == ErrorKind::InvalidField,
{
    let ghost start = output@;
    let mut stack: Vec<OpenField> = Vec::new();
    let mut k: usize = 0;
    while k < records.len()
        invariant
            k <= records@.len(),
            forall|i: int| 0 <= i < records@.len() ==> 0x13 <= (#[trigger] records@[i]).1 <= 0x15,
            balance(story, records@, k as int) matches Some((st, out)) && st == stack@ && output@
                == start + out,
        decreases records@.len() - k,
    {
        let (cp, kind, properties) = records[k];
        let ghost out = balance(story, records@, k as int).unwrap().1;
        if kind == 0x13 {
            let depth = stack.len();
            if depth > 0xFFFF_FFFF {
                proof {
                    lemma_balance_none_persists(story, records@, k as int + 1, records@.len() as int);
                }
                return Err(DocError::InvalidField(message("field nesting depth overflow")));
            }
            stack.push(OpenField { cp_begin: cp, cp_separator: None, field_type: properties, depth: depth as u32 });
        } else if kind == 0x14 {
            if stack.len() == 0 {
                proof {
                    lemma_balance_none_persists(story, records@, k as int + 1, records@.len() as int);
                }
                return Err(DocError::InvalidField(message("field separator has no open field")));
            }
            let last = stack.len() - 1;
            let mut current = stack[last];
            if current.cp_separator.is_some() {
                proof {
                    lemma_balance_none_persists(story, records@, k as int + 1, records@.len() as int);
                }
                return Err(DocError::InvalidField(message("field has two separators")));
            }
            current.cp_separator = Some(cp);
            stack.set(last, current);
        } else {
            let current = match stack.pop() {
                Some(current) => current,
                None => {
                    proof {
                        lemma_balance_none_persists(story, records@, k as int + 1, records@.len() as int);
                    }
                    return Err(DocError::InvalidField(message("field end has no open field")));
                },
            };
            output.push(
                Field {
                    story,
                    cp_begin: current.cp_begin,
                    cp_separator: current.cp_separator,
                    cp_end: cp,
                    field_type: current.field_type,
                    depth: current.depth,
                },
            );
            proof {
                assert(output@ =~= start + out.push(output@.last()));
            }
        }
        k = k + 1;
        proof {
            assert(balance(story, records@, k as int) == balance(story, records@, k as int));
        }
    }
    if stack.len() != 0 {
        return Err(DocError::InvalidField(message("story ends with unclosed fields")));
    }
    Ok(())
}

/// Number of field characters in a `PlcfFld` of `length` bytes.
pub fn field_character_count(kind: StoryKind, length: usize) -> (res: Result<usize>)
    ensures
        res is Ok <==> length >= 4 && (length - 4) % 6 == 0,
        res is Ok ==> res->Ok_0 == (length - 4) / 6,
        res is Err ==> res->Err_0.kind() == ErrorKind::InvalidField,
{
    if length < 4 || (length - 4) % 6 != 0 {
        return Err(DocError::InvalidField(message("PlcfFld length is not 6*n+4")));
    }
    Ok((length - 4) / 6)
}

/// The name of the PLC structure that holds a story's field table.
pub open spec fn field_structure_name(kind: StoryKind) -> Seq<char> {
    match kind {
        StoryKind::Main => "PlcfFldMom"@,
        StoryKind::Footnotes => "PlcfFldFtn"@,
        StoryKind::Headers => "PlcfFldHdr"@,
        StoryKind::Comments => "PlcfFldAtn"@,
        StoryKind::Endnotes => "PlcfFldEdn"@,
        StoryKind::Textboxes => "PlcfFldTxbx"@,
        StoryKind::HeaderTextboxes => "PlcfFldHdrTxbx"@,
    }
}

/// PLC structure name of a story's field table.
pub fn field_structure(kind: StoryKind) -> (res: &'static str)
    ensures
        res@ == field_structure_name(kind),
{
    match kind {
        StoryKind::Main => "PlcfFldMom",
        StoryKind::Footnotes => "PlcfFldFtn",
        StoryKind::Headers => "PlcfFldHdr",
        StoryKind::Comments => "PlcfFldAtn",
        StoryKind::Endnotes => "PlcfFldEdn",
        StoryKind::Textboxes => "PlcfFldTxbx",
        StoryKind::HeaderTextboxes => "PlcfFldHdrTxbx",
    }
}

// ---- One story's `PlcfFld`.

/// The field-character code of record `k` of a `PlcfFld` with `count` records.
pub open spec fn fld_kind(b: Seq<u8>, count: int, k: int) -> u8 {
    (le_u16(b, 4 * (count + 1) + 2 * k) % 32) as u8
}

/// The `flt`/flag byte of record `k`.
pub open spec fn fld_properties(b: Seq<u8>, count: int, k: int) -> u8 {
    (le_u16(b, 4 * (count + 1) + 2 * k) / 256) as u8
}

/// The check of record `k` against the story's source text.
pub open spec fn fld_record_check(doc: WordBinaryDocument, story: Story, b: Seq<u8>, count: int, k: int) -> Option<
    ErrorKind,
> {
    let kind = fld_kind(b, count, k);
    let cp = (story.cp_start + le_u32(b, 4 * k)) as u32;
    if kind < 0x13 || kind > 0x15 {
        Some(ErrorKind::InvalidField)
    } else {
        match doc.spec_decode(cp, (cp + 1) as u32) {
            Err(e) => Some(e),
            Ok(units) => if units != seq![kind as u16] {
                Some(ErrorKind::InvalidField)
            } else {
                None
            },
        }
    }
}

/// The `(cp, kind, properties)` records of a story's `PlcfFld`.
pub open spec fn fld_records(story: Story, b: Seq<u8>, count: int) -> Seq<(u32, u8, u8)> {
    Seq::new(
        count as nat,
        |k: int|
            (
                (story.cp_start + le_u32(b, 4 * k)) as u32,
                fld_kind(b, count, k),
                fld_properties(b, count, k),
            ),
    )
}

/// Parsing a story's `PlcfFld` of `count` records: its fields in closing
/// order, or the kind of the first failure.
pub open spec fn story_fields(doc: WordBinaryDocument, story: Story, b: Seq<u8>, count: int) -> Outcome<
    Seq<Field>,
> {
    let positions = le_u32_seq(b, 0, (count + 1) as nat);
    let checks = Seq::new(count as nat, |k: int| fld_record_check(doc, story, b, count, k));
    if !strictly_increasing(positions) {
        Err(ErrorKind::InvalidField)
    } else if exists|k: int| 0 <= k < count && #[trigger] positions[k] >= story.cp_end - story.cp_start {
        Err(ErrorKind::InvalidField)
    } else if first_failure(checks, count) is Some {
        Err(first_failure(checks, count).unwrap())
    } else {
        match balanced_fields(story.kind, fld_records(story, b, count)) {
            Some(fields) => Ok(fields),
            None => Err(ErrorKind::InvalidField),
        }
    }
}

/// Parses one story's field PLC and appends its balanced fields.
pub fn parse_story(
    document: &WordBinaryDocument,
    story: &Story,
    bytes: &[u8],
    count: usize,
    output: &mut Vec<Field>,
) -> (res: Result<()>)
    requires
        bytes@.len() == 4 + 6 * count,
        story.cp_start <= story.cp_end,
    ensures
        err_kind(res) == match story_fields(*document, *story, bytes@, count as int) {
            Ok(_) => None,
            Err(e) => Some(e),
        },
        res is Ok ==> final(output)@ == old(output)@ + story_fields(*document, *story, bytes@, count as int)->Ok_0,
{
    let ghost b = bytes@;
    let len = bytes.len();
    let ghost positions_spec = le_u32_seq(b, 0, (count + 1) as nat);
    let mut positions: Vec<u32> = Vec::new();
    let mut k: usize = 0;
    while k <= count
        invariant
            b == bytes@,
            len == b.len(),
            b.len() == 4 + 6 * count,
            k <= count + 1,
            positions@ == positions_spec.take(k as int),
            positions_spec == le_u32_seq(b, 0, (count + 1) as nat),
        decreases count + 1 - k,
    {
        positions.push(read_u32_le(bytes, 4 * k));
        proof {
            assert(positions@ =~= positions_spec.take(k as int + 1));
        }
        k = k + 1;
    }
    assert(positions@ =~= positions_spec);
    let mut k: usize = 0;
    while k < count
        invariant
            positions@ == positions_spec,
            positions_spec == le_u32_seq(bytes@, 0, (count + 1) as nat),
            positions_spec.len() == count + 1,
            k <= count,
            forall|i: int, j: int| 0 <= i < j <= k ==> positions_spec[i] < positions_spec[j],
        decreases count - k,
    {
        if positions[k] >= positions[k + 1] {
            assert(!strictly_increasing(positions_spec)) by {
                assert(positions_spec[k as int] >= positions_spec[k as int + 1]);
            }
            return Err(DocError::InvalidField(message("PlcfFld CPs are not strictly increasing")));
        }
        k = k + 1;
    }
    let story_length = story.cp_end - story.cp_start;
    let mut k: usize = 0;
    while k < count
        invariant
            positions@ == positions_spec,
            positions_spec == le_u32_seq(bytes@, 0, (count + 1) as nat),
            positions_spec.len() == count + 1,
            strictly_increasing(positions_spec),
            story_length == story.cp_end - story.cp_start,
            k <= count,
            forall|i: int| 0 <= i < k ==> positions_spec[i] < story_length,
        decreases count - k,
    {
        if positions[k] >= story_length {
            assert(positions_spec[k as int] >= story.cp_end - story.cp_start);
            return Err(DocError::InvalidField(message("field CP is outside the story")));
        }
        k = k + 1;
    }
    let ghost checks = Seq::new(count as nat, |k: int| fld_record_check(*document, *story, b, count as int, k));
    let ghost recs = fld_records(*story, b, count as int);
    let mut records: Vec<(u32, u8, u8)> = Vec::new();
    let mut k: usize = 0;
    while k < count
        invariant
            b == bytes@,
            len == b.len(),
            b.len() == 4 + 6 * count,
            positions@ == positions_spec,
            positions_spec == le_u32_seq(b, 0, (count + 1) as nat),
            strictly_increasing(positions_spec),
            story_length == story.cp_end - story.cp_start,
            story.cp_start <= story.cp_end,
            forall|i: int| 0 <= i < count ==> positions_spec[i] < story_length,
            checks == Seq::new(count as nat, |k: int| fld_record_check(*document, *story, b, count as int, k)),
            recs == fld_records(*story, b, count as int),
            k <= count,
            first_failure(checks, k as int) is None,
            records@ == recs.take(k as int),
            forall|i: int| 0 <= i < k ==> 0x13 <= (#[trigger] recs[i]).1 <= 0x15,
        decreases count - k,
    {
        let first = read_u16_le(bytes, 4 * (count + 1) + 2 * k);
        let kind = (first % 32) as u8;
        let properties = (first / 256) as u8;
        if kind < 0x13 || kind > 0x15 {
            proof {
                lemma_first_failure_persists(checks, k as int + 1, count as int);
            }
            return Err(DocError::InvalidField(message("PlcfFld has an invalid field character")));
        }
        let cp = story.cp_start + positions[k];
        let source = match document.decode_range(cp, cp + 1) {
            Ok(source) => source,
            Err(e) => {
                proof {
                    lemma_first_failure_persists(checks, k as int + 1, count as int);
                }
                return Err(e);
            },
        };
        if !(source.utf16.len() == 1 && source.utf16[0] == kind as u16) {
            proof {
                if source.utf16@ == seq![kind as u16] {
                    assert(source.utf16@[0] == kind as u16);
                }
                lemma_first_failure_persists(checks, k as int + 1, count as int);
            }
            return Err(DocError::InvalidField(message("field record disagrees with its source character")));
        }
        assert(source.utf16@ =~= seq![kind as u16]);
        records.push((cp, kind, properties));
        proof {
            assert(records@ =~= recs.take(k as int + 1));
        }
        k = k + 1;
    }
    assert(records@ =~= recs);
    balance_records(story.kind, records.as_slice(), output)
}

/// Validated fields from all document stories.
#[derive(Debug, Clone, Default, PartialEq, Eq)]
pub struct FieldCollection {
    fields: Vec<Field>,
}

/// The `FibRgFcLcb` index of the field PLC of story `i`.
pub open spec fn field_location_index(i: int) -> int {
    if i == 0 {
        16
    } else if i == 1 {
        18
    } else if i == 2 {
        17
    } else if i == 3 {
        19
    } else if i == 4 {
        48
    } else if i == 5 {
        57
    } else {
        59
    }
}

/// Whether `fields` are ordered by their first CP.
pub open spec fn sorted_by_begin(fields: Seq<Field>) -> bool {
    forall|i: int, j: int| 0 <= i < j < fields.len() ==> fields[i].cp_begin <= fields[j].cp_begin
}

/// Parsing the field PLCs of the first `i` stories: the number of field
/// characters seen and the fields found, or the kind of the first failure.
pub open spec fn fields_upto(doc: WordBinaryDocument, limits: DocLimits, i: int) -> Outcome<(int, Seq<Field>)>
    decreases i,
{
    if i <= 0 {
        Ok((0, seq![]))
    } else {
        match fields_upto(doc, limits, i - 1) {
            Err(e) => Err(e),
            Ok((seen, fields)) => {
                let loc = doc.spec_fib().locations.spec_get(field_location_index(i - 1) as usize);
                if loc is None || loc.unwrap().length == 0 {
                    Ok((seen, fields))
                } else {
                    let l = loc.unwrap();
                    let table = doc.spec_table();
                    if l.offset + l.length > table.len() {
                        Err(ErrorKind::OutOfBounds)
                    } else if l.length < 4 || (l.length - 4) % 6 != 0 {
                        Err(ErrorKind::InvalidField)
                    } else {
                        let count = (l.length - 4) / 6;
                        if seen + count > limits.max_field_characters {
                            Err(ErrorKind::ResourceLimit)
                        } else {
                            let b = table.subrange(l.offset as int, l.offset + l.length);
                            match story_fields(doc, doc.spec_stories()[i - 1], b, count) {
                                Err(e) => Err(e),
                                Ok(f) => Ok((seen + count, fields + f)),
                            }
                        }
                    }
                }
            },
        }
    }
}

/// What parsing the field PLCs of `doc` yields: the first failure, or every
/// story's balanced fields ordered by first CP.
pub open spec fn field_collection_result(doc: WordBinaryDocument, limits: DocLimits, res: Result<FieldCollection>) -> bool {
    match fields_upto(doc, limits, 7) {
        Err(e) => res is Err && res->Err_0.kind() == e,
        Ok((_, fields)) => res matches Ok(c) && sorted_by_begin(c.spec_fields())
            && c.spec_fields().to_multiset() == fields.to_multiset(),
    }
}

/// Once parsing the field PLCs has failed, later stories keep that failure.
pub proof fn lemma_fields_err_persists(doc: WordBinaryDocument, limits: DocLimits, i: int, n: int)
    requires
        0 <= i <= n,
        fields_upto(doc, limits, i) is Err,
    ensures
        fields_upto(doc, limits, n) == fields_upto(doc, limits, i),
    decreases n - i,
{
    if n > i {
        lemma_fields_err_persists(doc, limits, i, n - 1);
    }
}

impl FieldCollection {
    /// The fields, ordered by first CP.
    pub closed spec fn spec_fields(&self) -> Seq<Field> {
        self.fields@
    }

    /// Parses nested field character PLCs for every Word story.
    pub fn parse(document: &WordBinaryDocument, limits: DocLimits) -> (res: Result<Self>)
        ensures
            field_collection_result(*document, limits, res),
    {
        let stories = document.stories();
        let locations = [
            document.fib().locations.main_fields(),
            document.fib().locations.footnote_fields(),
            document.fib().locations.header_fields(),
            document.fib().locations.comment_fields(),
            document.fib().locations.endnote_fields(),
            document.fib().locations.textbox_fields(),
            document.fib().locations.header_textbox_fields(),
        ];
        let mut fields: Vec<Field> = Vec::new();
        let mut character_count: usize = 0;
        let mut i: usize = 0;
        while i < 7
            invariant
                document.stories_decoded(),
                stories@ == document.spec_stories(),
                locations@.len() == 7,
                forall|j: int|
                    0 <= j < 7 ==> #[trigger] locations@[j] == document.spec_fib().locations.spec_get(
                        field_location_index(j) as usize,
                    ),
                i <= 7,
                character_count <= limits.max_field_characters,
                fields_upto(*document, limits, i as int) matches Ok((seen, fs)) && seen
                    == character_count && fs == fields@,
            decreases 7 - i,
        {
            let location = locations[i];
            let story = &stories[i];
            let ghost before = fields@;
            match location {
                Some(location) => {
                    if !location.is_empty() {
                        let bytes = match checked_slice(
                            document.table_stream(),
                            location.offset,
                            location.length,
                            field_structure(story.kind),
                        ) {
                            Ok(bytes) => bytes,
                            Err(e) => {
                                proof {
                                    lemma_fields_err_persists(*document, limits, i as int + 1, 7);
                                }
                                return Err(e);
                            },
                        };
                        let count = match field_character_count(story.kind, bytes.len()) {
                            Ok(count) => count,
                            Err(e) => {
                                proof {
                                    lemma_fields_err_persists(*document, limits, i as int + 1, 7);
                                }
                                return Err(e);
                            },
                        };
                        if count > limits.max_field_characters - character_count {
                            proof {
                                lemma_fields_err_persists(*document, limits, i as int + 1, 7);
                            }
                            return Err(
                                DocError::ResourceLimit {
                                    resource: "field character",
                                    actual: (character_count as u64).wrapping_add(count as u64),
                                    limit: limits.max_field_characters as u64,
                                },
                            );
                        }
                        character_count = character_count + count;
                        assert(story.cp_start <= story.cp_end);
                        match parse_story(document, story, bytes, count, &mut fields) {
                            Ok(()) => {},
                            Err(e) => {
                                proof {
                                    lemma_fields_err_persists(*document, limits, i as int + 1, 7);
                                }
                                return Err(e);
                            },
                        }
                    }
                },
                None => {},
            }
            i = i + 1;
        }
        sort_by_begin(&mut fields);
        Ok(Self { fields })
    }

    /// Fields ordered by first CP.
    pub fn fields(&self) -> (res: &[Field])
        ensures
            res@ == self.spec_fields(),
    {
        self.fields.as_slice()
    }

    /// Top-level fields of one story range: depth zero, beginning at or after
    /// `cp_start` and ending before `cp_end`.
    pub fn top_level_in(&self, cp_start: u32, cp_end: u32) -> (res: Vec<Field>)
        ensures
            res@ == self.spec_fields().filter(
                |f: Field| f.depth == 0 && f.cp_begin >= cp_start && f.cp_end < cp_end,
            ),
    {
        let ghost pred = |f: Field| f.depth == 0 && f.cp_begin >= cp_start && f.cp_end < cp_end;
        let mut result: Vec<Field> = Vec::new();
        let mut i: usize = 0;
        while i < self.fields.len()
            invariant
                i <= self.spec_fields().len(),
                pred == |f: Field| f.depth == 0 && f.cp_begin >= cp_start && f.cp_end < cp_end,
                result@ == self.spec_fields().take(i as int).filter(pred),
            decreases self.spec_fields().len() - i,
        {
            let field = self.fields[i];
            proof {
                assert(self.spec_fields().take(i as int + 1).drop_last() =~= self.spec_fields().take(i as int));
                reveal_with_fuel(Seq::filter, 1);
            }
            if field.depth == 0 && field.cp_begin >= cp_start && field.cp_end < cp_end {
                result.push(field);
            }
            i = i + 1;
        }
        assert(self.spec_fields().take(self.spec_fields().len() as int) =~= self.spec_fields());
        result
    }
}

/// Sorts fields by first CP (insertion sort; equal keys keep their order).
fn sort_by_begin(fields: &mut Vec<Field>)
    ensures
        sorted_by_begin(final(fields)@),
        final(fields)@.to_multiset() == old(fields)@.to_multiset(),
{
    let n = fields.len();
    let mut i: usize = 0;
    while i < n
        invariant
            n == fields@.len(),
            0 <= i <= n,
            forall|a: int, b: int|
                0 <= a < b < i ==> (#[trigger] fields@[a]).cp_begin <= (#[trigger] fields@[b]).cp_begin,
            fields@.to_multiset() == old(fields)@.to_multiset(),
        decreases n - i,
    {
        let mut j = i;
        while j > 0 && fields[j - 1].cp_begin > fields[j].cp_begin
            invariant
                n == fields@.len(),
                0 <= j <= i < n,
                fields@.to_multiset() == old(fields)@.to_multiset(),
                forall|a: int, b: int|
                    0 <= a < b <= i && a != j && b != j ==> (#[trigger] fields@[a]).cp_begin
                        <= (#[trigger] fields@[b]).cp_begin,
                forall|b: int| j < b <= i ==> fields@[j as int].cp_begin <= (#[trigger] fields@[b]).cp_begin,
            decreases j,
        {
            let ghost before = fields@;
            let x = fields[j - 1];
            let y = fields[j];
            fields.set(j - 1, y);
            fields.set(j, x);
            proof {
                crate::seq_util::lemma_swap_multiset(before, j - 1, j as int);
            }
            j = j - 1;
        }
        proof {
            assert forall|a: int, b: int| 0 <= a < b < i + 1 implies (#[trigger] fields@[a]).cp_begin
                <= (#[trigger] fields@[b]).cp_begin by {
                if b == j && a < j - 1 {
                    assert(fields@[a].cp_begin <= fields@[j - 1].cp_begin);
                }
            }
        }
        i = i + 1;
    }
}

} // verus!

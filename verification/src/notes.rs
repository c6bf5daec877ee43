//! Source-backed footnote and endnote reconstruction.

use vstd::prelude::*;

use crate::binary::{checked_slice, le_u16, le_u32_seq, read_u16_le, strictly_increasing};
use crate::document::{Story, StoryKind, WordBinaryDocument};
use crate::error::{DocError, ErrorKind, Outcome, Result, message};
use crate::fib::{INDEX_PLCF_END_REF, INDEX_PLCF_END_TXT, INDEX_PLCF_FND_REF, INDEX_PLCF_FND_TXT};
use crate::limits::DocLimits;
use crate::plc::{any_at_least, has_value_at_least, is_strictly_increasing, read_u32_array};

verus! {

/// Kind of note subdocument and reference.
#[derive(Debug, Clone, Copy, PartialEq, Eq, Structural)]
pub enum NoteKind {
    Footnote,
    Endnote,
}

/// One reference mark in the main document.
#[derive(Debug, Clone, Copy, PartialEq, Eq, Structural)]
pub struct NoteReference {
    pub kind: NoteKind,
    /// Global source CP of the reference character.
    pub cp: u32,
    /// OOXML-compatible positive identifier, scoped to the note kind.
    pub note_id: u32,
    pub automatic: bool,
}

/// One note body range in its source story.
#[derive(Debug, Clone, Copy, PartialEq, Eq, Structural)]
pub struct SourceNote {
    pub kind: NoteKind,
    pub note_id: u32,
    pub reference_cp: u32,
    pub automatic: bool,
    /// Global source CP of the first body character.
    pub cp_start: u32,
    /// Exclusive global source CP, including the required final paragraph mark.
    pub cp_end: u32,
}

/// Validated note references and their one-to-one body ranges.
#[derive(Debug, Clone, Default, PartialEq, Eq)]
pub struct NoteCollection {
    notes: Vec<SourceNote>,
    references: Vec<NoteReference>,
}

/// Reference PLC bytes `b`: the `(cp, automatic)` pairs, or the failure kind.
pub open spec fn note_references(b: Seq<u8>, main_length: u32) -> Outcome<Seq<(u32, bool)>> {
    if b.len() < 4 || (b.len() - 4) % 6 != 0 {
        Err(ErrorKind::InvalidNote)
    } else {
        let count = (b.len() - 4) / 6;
        let positions = le_u32_seq(b, 0, (count + 1) as nat);
        if !strictly_increasing(positions) || any_at_least(positions, count, main_length as int) {
            Err(ErrorKind::InvalidNote)
        } else {
            Ok(
                Seq::new(
                    count as nat,
                    |k: int| (positions[k], le_u16(b, 4 * (count + 1) + 2 * k) != 0),
                ),
            )
        }
    }
}

/// Text-boundary PLC bytes `b` for `count` notes of `story`: the `count + 1`
/// used boundaries, or the failure kind.
pub open spec fn note_boundaries(b: Seq<u8>, count: int, story: Story) -> Outcome<Seq<u32>> {
    let positions = le_u32_seq(b, 0, (count + 2) as nat);
    let used = positions.take(count + 1);
    let story_length = story.cp_end - story.cp_start;
    if b.len() != 4 * (count + 2) || !strictly_increasing(used) || story_length < 1 || used.last()
        != story_length - 1 {
        Err(ErrorKind::InvalidNote)
    } else {
        Ok(used)
    }
}

/// Parses a note reference PLC.
pub fn parse_references(kind: NoteKind, bytes: &[u8], main_length: u32) -> (res: Result<Vec<(u32, bool)>>)
    ensures
        match note_references(bytes@, main_length) {
            Ok(v) => res matches Ok(r) && r@ == v,
            Err(e) => res is Err && res->Err_0.kind() == e,
        },
{
    let len = bytes.len();
    if len < 4 || (len - 4) % 6 != 0 {
        return Err(DocError::InvalidNote(message("note reference PLC length is not 6*n+4")));
    }
    let count = (len - 4) / 6;
    let positions = read_u32_array(bytes, count + 1);
    if !is_strictly_increasing(positions.as_slice()) {
        return Err(DocError::InvalidNote(message("note reference CPs are not strictly increasing")));
    }
    if has_value_at_least(positions.as_slice(), count, main_length) {
        return Err(DocError::InvalidNote(message("note reference CP is outside the main story")));
    }
    let ghost expected = note_references(bytes@, main_length)->Ok_0;
    let mut result: Vec<(u32, bool)> = Vec::new();
    let mut k: usize = 0;
    while k < count
        invariant
            len == bytes@.len(),
            len == 4 + 6 * count,
            positions@ == le_u32_seq(bytes@, 0, (count + 1) as nat),
            expected == Seq::new(
                count as nat,
                |j: int| (positions@[j], le_u16(bytes@, 4 * (count + 1) + 2 * j) != 0),
            ),
            k <= count,
            result@ == expected.take(k as int),
        decreases count - k,
    {
        let flag = read_u16_le(bytes, 4 * (count + 1) + 2 * k);
        result.push((positions[k], flag != 0));
        proof {
            assert(result@ =~= expected.take(k as int + 1));
        }
        k = k + 1;
    }
    assert(result@ =~= expected);
    Ok(result)
}

/// Parses a note text-boundary PLC.
pub fn parse_boundaries(kind: NoteKind, bytes: &[u8], count: usize, story: &Story) -> (res: Result<
    Vec<u32>,
>)
    requires
        story.cp_start <= story.cp_end,
    ensures
        match note_boundaries(bytes@, count as int, *story) {
            Ok(v) => res matches Ok(r) && r@ == v,
            Err(e) => res is Err && res->Err_0.kind() == e,
        },
{
    let len = bytes.len();
    if count > (usize::MAX / 4) - 2 || len != 4 * (count + 2) {
        return Err(DocError::InvalidNote(message("note text PLC has the wrong length")));
    }
    let mut positions = read_u32_array(bytes, count + 2);
    positions.pop();
    proof {
        assert(positions@ =~= le_u32_seq(bytes@, 0, (count + 2) as nat).take(count as int + 1));
    }
    if !is_strictly_increasing(positions.as_slice()) {
        return Err(DocError::InvalidNote(message("note body CPs are not strictly increasing")));
    }
    let story_length = story.cp_end - story.cp_start;
    if story_length < 1 {
        return Err(DocError::InvalidNote(message("note story has no guard character")));
    }
    if positions[count] != story_length - 1 {
        return Err(DocError::InvalidNote(message("final note body boundary does not precede the guard")));
    }
    Ok(positions)
}

/// Rejects an empty body or one that does not end in a paragraph mark.
pub fn validate_body_end(document: &WordBinaryDocument, kind: NoteKind, cp_start: u32, cp_end: u32) -> (res:
    Result<()>)
    ensures
        match body_end_failure(*document, cp_start, cp_end) {
            None => res is Ok,
            Some(e) => res is Err && res->Err_0.kind() == e,
        },
{
    if cp_start >= cp_end {
        return Err(DocError::InvalidNote(message("note body is empty")));
    }
    let terminal = document.decode_range(cp_end - 1, cp_end)?;
    if !(terminal.utf16.len() == 1 && terminal.utf16[0] == 0x000D) {
        proof {
            if terminal.utf16@ == seq![0x000Du16] {
                assert(terminal.utf16@[0] == 0x000D);
            }
        }
        return Err(DocError::InvalidNote(message("note body does not end in a paragraph mark")));
    }
    assert(terminal.utf16@ =~= seq![0x000Du16]);
    Ok(())
}

/// Why note body `[a, b)` is invalid, if it is.
pub open spec fn body_end_failure(doc: WordBinaryDocument, a: u32, b: u32) -> Option<ErrorKind> {
    if a >= b {
        Some(ErrorKind::InvalidNote)
    } else {
        match doc.spec_decode((b - 1) as u32, b) {
            Err(e) => Some(e),
            Ok(units) => if units != seq![0x000Du16] {
                Some(ErrorKind::InvalidNote)
            } else {
                None
            },
        }
    }
}

/// The name of the reference PLC of a note kind.
pub open spec fn reference_structure_name(kind: NoteKind) -> Seq<char> {
    match kind {
        NoteKind::Footnote => "PlcffndRef"@,
        NoteKind::Endnote => "PlcfendRef"@,
    }
}

/// The name of the text PLC of a note kind.
pub open spec fn text_structure_name(kind: NoteKind) -> Seq<char> {
    match kind {
        NoteKind::Footnote => "PlcffndTxt"@,
        NoteKind::Endnote => "PlcfendTxt"@,
    }
}

/// The note-kind name of a story's reference PLC.
pub fn reference_structure(kind: NoteKind) -> (res: &'static str)
    ensures
        res@ == reference_structure_name(kind),
{
    match kind {
        NoteKind::Footnote => "PlcffndRef",
        NoteKind::Endnote => "PlcfendRef",
    }
}

/// The note-kind name of a story's text PLC.
pub fn text_structure(kind: NoteKind) -> (res: &'static str)
    ensures
        res@ == text_structure_name(kind),
{
    match kind {
        NoteKind::Footnote => "PlcffndTxt",
        NoteKind::Endnote => "PlcfendTxt",
    }
}

/// The story index, reference-PLC index and text-PLC index of a note kind.
pub open spec fn note_layout(kind: NoteKind) -> (int, usize, usize) {
    match kind {
        NoteKind::Footnote => (1, INDEX_PLCF_FND_REF, INDEX_PLCF_FND_TXT),
        NoteKind::Endnote => (4, INDEX_PLCF_END_REF, INDEX_PLCF_END_TXT),
    }
}

/// Checks of the note bodies given their references and boundaries.
pub open spec fn note_body_checks(doc: WordBinaryDocument, story: Story, boundaries: Seq<u32>, n: int) -> Seq<
    Option<ErrorKind>,
> {
    Seq::new(
        n as nat,
        |k: int|
            if k + 1 > u32::MAX || story.cp_start + boundaries[k + 1] > u32::MAX {
                Some(ErrorKind::InvalidNote)
            } else {
                body_end_failure(
                    doc,
                    (story.cp_start + boundaries[k]) as u32,
                    (story.cp_start + boundaries[k + 1]) as u32,
                )
            },
    )
}

/// The notes of one kind appended after `prior` earlier notes: the notes in
/// source order, or the failure kind.
pub open spec fn notes_of_kind(doc: WordBinaryDocument, kind: NoteKind, prior: int, limits: DocLimits) -> Outcome<
    Seq<SourceNote>,
> {
    let (story_index, ref_index, text_index) = note_layout(kind);
    let story = doc.spec_stories()[story_index];
    let r = doc.spec_fib().locations.spec_get(ref_index);
    let t = doc.spec_fib().locations.spec_get(text_index);
    let r_present = r is Some && r.unwrap().length != 0;
    let t_present = t is Some && t.unwrap().length != 0;
    let table = doc.spec_table();
    if !r_present && !t_present && story.cp_start == story.cp_end {
        Ok(seq![])
    } else if !r_present || !t_present {
        Err(ErrorKind::InvalidNote)
    } else if r.unwrap().offset + r.unwrap().length > table.len() || t.unwrap().offset
        + t.unwrap().length > table.len() {
        Err(ErrorKind::OutOfBounds)
    } else {
        let rb = table.subrange(r.unwrap().offset as int, r.unwrap().offset + r.unwrap().length);
        let tb = table.subrange(t.unwrap().offset as int, t.unwrap().offset + t.unwrap().length);
        match note_references(rb, doc.spec_fib().stories.main) {
            Err(e) => Err(e),
            Ok(refs) => if prior + refs.len() > limits.max_notes {
                Err(ErrorKind::ResourceLimit)
            } else {
                match note_boundaries(tb, refs.len() as int, story) {
                    Err(e) => Err(e),
                    Ok(bounds) => {
                        let checks = note_body_checks(doc, story, bounds, refs.len() as int);
                        match crate::error::first_failure(checks, refs.len() as int) {
                            Some(e) => Err(e),
                            None => Ok(
                                Seq::new(
                                    refs.len(),
                                    |k: int|
                                        SourceNote {
                                            kind,
                                            note_id: (k + 1) as u32,
                                            reference_cp: refs[k].0,
                                            automatic: refs[k].1,
                                            cp_start: (story.cp_start + bounds[k]) as u32,
                                            cp_end: (story.cp_start + bounds[k + 1]) as u32,
                                        },
                                ),
                            ),
                        }
                    },
                }
            },
        }
    }
}

/// The reference of a note.
pub open spec fn reference_of(n: SourceNote) -> NoteReference {
    NoteReference { kind: n.kind, cp: n.reference_cp, note_id: n.note_id, automatic: n.automatic }
}

/// Whether `refs` are ordered by CP.
pub open spec fn sorted_by_cp(refs: Seq<NoteReference>) -> bool {
    forall|i: int, j: int| 0 <= i < j < refs.len() ==> refs[i].cp <= refs[j].cp
}

/// What parsing the notes of `doc` yields: footnotes then endnotes, with the
/// references ordered by CP.
pub open spec fn note_collection_result(doc: WordBinaryDocument, limits: DocLimits, res: Result<NoteCollection>) -> bool {
    match notes_of_kind(doc, NoteKind::Footnote, 0, limits) {
        Err(e) => res is Err && res->Err_0.kind() == e,
        Ok(foot) => match notes_of_kind(doc, NoteKind::Endnote, foot.len() as int, limits) {
            Err(e) => res is Err && res->Err_0.kind() == e,
            Ok(end) => res matches Ok(c) && c.spec_notes() == foot + end && sorted_by_cp(c.spec_references())
                && c.spec_references().to_multiset() == (foot + end).map_values(|n: SourceNote| reference_of(n)).to_multiset(),
        },
    }
}

impl NoteCollection {
    /// Notes in source order: footnotes, then endnotes.
    pub closed spec fn spec_notes(&self) -> Seq<SourceNote> {
        self.notes@
    }

    /// References ordered by CP.
    pub closed spec fn spec_references(&self) -> Seq<NoteReference> {
        self.references@
    }

    /// Parse footnote and endnote PLCs referenced by the FIB.
    pub fn parse(document: &WordBinaryDocument, limits: DocLimits) -> (res: Result<Self>)
        ensures
            note_collection_result(*document, limits, res),
    {
        let mut notes: Vec<SourceNote> = Vec::new();
        parse_kind(document, NoteKind::Footnote, limits, &mut notes)?;
        let ghost foot = notes@;
        parse_kind(document, NoteKind::Endnote, limits, &mut notes)?;
        let mut references: Vec<NoteReference> = Vec::new();
        let mut k: usize = 0;
        while k < notes.len()
            invariant
                k <= notes@.len(),
                references@ == notes@.take(k as int).map_values(|n: SourceNote| reference_of(n)),
            decreases notes@.len() - k,
        {
            let n = notes[k];
            references.push(NoteReference { kind: n.kind, cp: n.reference_cp, note_id: n.note_id, automatic: n.automatic });
            proof {
                assert(references@ =~= notes@.take(k as int + 1).map_values(|n: SourceNote| reference_of(n)));
            }
            k = k + 1;
        }
        assert(notes@.take(notes@.len() as int) =~= notes@);
        sort_by_cp(&mut references);
        Ok(Self { notes, references })
    }

    pub fn notes(&self) -> (res: &[SourceNote])
        ensures
            res@ == self.spec_notes(),
    {
        self.notes.as_slice()
    }

    pub fn references(&self) -> (res: &[NoteReference])
        ensures
            res@ == self.spec_references(),
    {
        self.references.as_slice()
    }

    /// The reference at `cp`, found by binary search over CP-ordered references.
    pub fn reference_at(&self, cp: u32) -> (res: Option<NoteReference>)
        requires
            sorted_by_cp(self.spec_references()),
        ensures
            res matches Some(r) ==> r.cp == cp && self.spec_references().contains(r),
            res is None ==> forall|i: int| 0 <= i < self.spec_references().len() ==> (
            #[trigger] self.spec_references()[i]).cp != cp,
    {
        let mut low: usize = 0;
        let mut high: usize = self.references.len();
        while low < high
            invariant
                sorted_by_cp(self.spec_references()),
                high <= self.spec_references().len(),
                low <= high,
                forall|i: int| 0 <= i < low ==> (#[trigger] self.spec_references()[i]).cp < cp,
                forall|i: int| high <= i < self.spec_references().len() ==> (
                #[trigger] self.spec_references()[i]).cp > cp,
            decreases high - low,
        {
            let mid = low + (high - low) / 2;
            let found = self.references[mid];
            if found.cp == cp {
                return Some(found);
            } else if found.cp < cp {
                low = mid + 1;
            } else {
                high = mid;
            }
        }
        None
    }
}

/// Parses the reference and text PLCs of one note kind and appends its notes.
fn parse_kind(document: &WordBinaryDocument, kind: NoteKind, limits: DocLimits, notes: &mut Vec<SourceNote>) -> (res:
    Result<()>)
    ensures
        match notes_of_kind(*document, kind, old(notes)@.len() as int, limits) {
            Err(e) => res is Err && res->Err_0.kind() == e,
            Ok(found) => res is Ok && final(notes)@ == old(notes)@ + found,
        },
{
    let stories = document.stories();
    let story = match kind {
        NoteKind::Footnote => &stories[1],
        NoteKind::Endnote => &stories[4],
    };
    let (reference_location, text_location) = match kind {
        NoteKind::Footnote => (
            document.fib().locations.footnote_references(),
            document.fib().locations.footnote_text(),
        ),
        NoteKind::Endnote => (
            document.fib().locations.endnote_references(),
            document.fib().locations.endnote_text(),
        ),
    };
    let reference_location = match reference_location {
        Some(l) => if l.is_empty() {
            None
        } else {
            Some(l)
        },
        None => None,
    };
    let text_location = match text_location {
        Some(l) => if l.is_empty() {
            None
        } else {
            Some(l)
        },
        None => None,
    };
    match (reference_location, text_location) {
        (None, None) => {
            if story.cp_start == story.cp_end {
                return Ok(());
            }
            Err(DocError::InvalidNote(message("note story and both PLCs must be present or absent together")))
        },
        (Some(reference_location), Some(text_location)) => {
            let reference_bytes = checked_slice(
                document.table_stream(),
                reference_location.offset,
                reference_location.length,
                reference_structure(kind),
            )?;
            let text_bytes = checked_slice(
                document.table_stream(),
                text_location.offset,
                text_location.length,
                text_structure(kind),
            )?;
            append_kind(document, kind, story, reference_bytes, text_bytes, limits, notes)
        },
        _ => Err(DocError::InvalidNote(message("note story and both PLCs must be present or absent together"))),
    }
}

/// Appends the validated notes of one kind.
fn append_kind(
    document: &WordBinaryDocument,
    kind: NoteKind,
    story: &Story,
    reference_bytes: &[u8],
    text_bytes: &[u8],
    limits: DocLimits,
    notes: &mut Vec<SourceNote>,
) -> (res: Result<()>)
    requires
        story.cp_start <= story.cp_end,
    ensures
        match note_references(reference_bytes@, document.spec_fib().stories.main) {
            Err(e) => res is Err && res->Err_0.kind() == e,
            Ok(refs) => if old(notes)@.len() + refs.len() > limits.max_notes {
                res is Err && res->Err_0.kind() == ErrorKind::ResourceLimit
            } else {
                match note_boundaries(text_bytes@, refs.len() as int, *story) {
                    Err(e) => res is Err && res->Err_0.kind() == e,
                    Ok(bounds) => {
                        let checks = note_body_checks(*document, *story, bounds, refs.len() as int);
                        match crate::error::first_failure(checks, refs.len() as int) {
                            Some(e) => res is Err && res->Err_0.kind() == e,
                            None => res is Ok && final(notes)@ == old(notes)@ + Seq::new(
                                refs.len(),
                                |k: int|
                                    SourceNote {
                                        kind,
                                        note_id: (k + 1) as u32,
                                        reference_cp: refs[k].0,
                                        automatic: refs[k].1,
                                        cp_start: (story.cp_start + bounds[k]) as u32,
                                        cp_end: (story.cp_start + bounds[k + 1]) as u32,
                                    },
                            ),
                        }
                    },
                }
            },
        },
{
    let references = parse_references(kind, reference_bytes, document.fib().stories.main)?;
    if references.len() > limits.max_notes || notes.len() > limits.max_notes - references.len() {
        return Err(
            DocError::ResourceLimit {
                resource: "footnote/endnote",
                actual: (notes.len() as u64).wrapping_add(references.len() as u64),
                limit: limits.max_notes as u64,
            },
        );
    }
    let boundaries = parse_boundaries(kind, text_bytes, references.len(), story)?;
    let ghost refs = references@;
    let ghost bounds = boundaries@;
    let ghost checks = note_body_checks(*document, *story, bounds, refs.len() as int);
    let ghost start = notes@;
    let ghost expected = Seq::new(
        refs.len(),
        |k: int|
            SourceNote {
                kind,
                note_id: (k + 1) as u32,
                reference_cp: refs[k].0,
                automatic: refs[k].1,
                cp_start: (story.cp_start + bounds[k]) as u32,
                cp_end: (story.cp_start + bounds[k + 1]) as u32,
            },
    );
    let count = references.len();
    let mut k: usize = 0;
    while k < count
        invariant
            count == refs.len(),
            references@ == refs,
            boundaries@ == bounds,
            bounds.len() == count + 1,
            count <= limits.max_notes,
            start.len() + count <= limits.max_notes,
            start == old(notes)@,
            note_references(reference_bytes@, document.spec_fib().stories.main) == Ok::<Seq<(u32, bool)>, ErrorKind>(refs),
            note_boundaries(text_bytes@, refs.len() as int, *story) == Ok::<Seq<u32>, ErrorKind>(bounds),
            crate::binary::strictly_increasing(bounds),
            checks == note_body_checks(*document, *story, bounds, refs.len() as int),
            expected == Seq::new(
                refs.len(),
                |k: int|
                    SourceNote {
                        kind,
                        note_id: (k + 1) as u32,
                        reference_cp: refs[k].0,
                        automatic: refs[k].1,
                        cp_start: (story.cp_start + bounds[k]) as u32,
                        cp_end: (story.cp_start + bounds[k + 1]) as u32,
                    },
            ),
            story.cp_start <= story.cp_end,
            k <= count,
            crate::error::first_failure(checks, k as int) is None,
            notes@ == start + expected.take(k as int),
        decreases count - k,
    {
        let (reference_cp, automatic) = references[k];
        if k >= 0xFFFF_FFFF {
            proof {
                crate::error::lemma_first_failure_persists(checks, k as int + 1, count as int);
            }
            return Err(DocError::InvalidNote(message("note identifier overflow")));
        }
        if boundaries[k] > u32::MAX - story.cp_start || boundaries[k + 1] > u32::MAX - story.cp_start {
            proof {
                assert(bounds[k as int] < bounds[k as int + 1]);
                crate::error::lemma_first_failure_persists(checks, k as int + 1, count as int);
            }
            return Err(DocError::InvalidNote(message("note body CP overflow")));
        }
        let cp_start = story.cp_start + boundaries[k];
        let cp_end = story.cp_start + boundaries[k + 1];
        match validate_body_end(document, kind, cp_start, cp_end) {
            Ok(()) => {},
            Err(e) => {
                proof {
                    crate::error::lemma_first_failure_persists(checks, k as int + 1, count as int);
                }
                return Err(e);
            },
        }
        let note_id = (k + 1) as u32;
        notes.push(SourceNote { kind, note_id, reference_cp, automatic, cp_start, cp_end });
        proof {
            assert(notes@ =~= start + expected.take(k as int + 1));
        }
        k = k + 1;
    }
    assert(expected.take(count as int) =~= expected);
    Ok(())
}

/// Sorts references by CP (insertion sort).
fn sort_by_cp(refs: &mut Vec<NoteReference>)
    ensures
        sorted_by_cp(final(refs)@),
        final(refs)@.to_multiset() == old(refs)@.to_multiset(),
{
    let n = refs.len();
    let mut i: usize = 0;
    while i < n
        invariant
            n == refs@.len(),
            0 <= i <= n,
            forall|a: int, b: int| 0 <= a < b < i ==> (#[trigger] refs@[a]).cp <= (#[trigger] refs@[b]).cp,
            refs@.to_multiset() == old(refs)@.to_multiset(),
        decreases n - i,
    {
        let mut j = i;
        while j > 0 && refs[j - 1].cp > refs[j].cp
            invariant
                n == refs@.len(),
                0 <= j <= i < n,
                refs@.to_multiset() == old(refs)@.to_multiset(),
                forall|a: int, b: int|
                    0 <= a < b <= i && a != j && b != j ==> (#[trigger] refs@[a]).cp <= (#[trigger] refs@[b]).cp,
                forall|b: int| j < b <= i ==> refs@[j as int].cp <= (#[trigger] refs@[b]).cp,
            decreases j,
        {
            let ghost before = refs@;
            let x = refs[j - 1];
            let y = refs[j];
            refs.set(j - 1, y);
            refs.set(j, x);
            proof {
                crate::seq_util::lemma_swap_multiset(before, j - 1, j as int);
            }
            j = j - 1;
        }
        proof {
            assert forall|a: int, b: int| 0 <= a < b < i + 1 implies (#[trigger] refs@[a]).cp <= (#[trigger] refs@[b]).cp by {
                if b == j && a < j - 1 {
                    assert(refs@[a].cp <= refs@[j - 1].cp);
                }
            }
        }
        i = i + 1;
    }
}

} // verus!

//! Header/footer story boundaries and per-section inheritance.

use vstd::prelude::*;

use crate::binary::{checked_slice, le_i32, non_decreasing, read_i32_le};
use crate::document::{Story, StoryKind, WordBinaryDocument, story_kind_at};
use crate::error::{DocError, ErrorKind, Outcome, Result, message};
use crate::fib::INDEX_PLCF_HDD;
use crate::limits::DocLimits;
use crate::plc::is_non_decreasing;
use crate::sections::{lemma_section_count, section_count_outcome};

verus! {

/// Stories before the first section: separators and continuation notices.
pub const SEPARATOR_STORY_COUNT: usize = 6;

/// Header/footer stories of each section.
pub const STORIES_PER_SECTION: usize = 6;

/// Semantic role of one `PlcfHdd` story.
#[derive(Debug, Clone, Copy, PartialEq, Eq, Structural)]
pub enum HeaderFooterKind {
    FootnoteSeparator,
    FootnoteContinuationSeparator,
    FootnoteContinuationNotice,
    EndnoteSeparator,
    EndnoteContinuationSeparator,
    EndnoteContinuationNotice,
    EvenHeader,
    OddHeader,
    EvenFooter,
    OddFooter,
    FirstHeader,
    FirstFooter,
}

/// One source story; `cp_end` includes its guard paragraph when non-empty.
#[derive(Debug, Clone, PartialEq, Eq)]
pub struct HeaderFooterStory {
    pub index: usize,
    pub kind: HeaderFooterKind,
    pub section_index: Option<usize>,
    pub cp_start: u32,
    pub cp_content_end: u32,
    pub cp_end: u32,
}

impl HeaderFooterStory {
    /// Whether the story holds no characters.
    pub fn is_empty(&self) -> (res: bool)
        ensures
            res == (self.cp_start == self.cp_end),
    {
        self.cp_start == self.cp_end
    }
}

/// A resolved section link to a non-empty source story.
#[derive(Debug, Clone, Copy, PartialEq, Eq, Structural)]
pub struct HeaderFooterLink {
    pub story_index: usize,
    /// True when an empty current-section story inherited this source.
    pub inherited: bool,
}

/// Six resolved header/footer roles for one section.
#[derive(Debug, Clone, PartialEq, Eq)]
pub struct SectionHeaderFooters {
    pub section_index: usize,
    pub even_header: Option<HeaderFooterLink>,
    pub odd_header: Option<HeaderFooterLink>,
    pub even_footer: Option<HeaderFooterLink>,
    pub odd_footer: Option<HeaderFooterLink>,
    pub first_header: Option<HeaderFooterLink>,
    pub first_footer: Option<HeaderFooterLink>,
}

impl Default for SectionHeaderFooters {
    fn default() -> (res: Self)
        ensures
            res.section_index == 0,
            forall|r: int| 0 <= r < 6 ==> #[trigger] section_link(res, r) is None,
    {
        SectionHeaderFooters {
            section_index: 0,
            even_header: None,
            odd_header: None,
            even_footer: None,
            odd_footer: None,
            first_header: None,
            first_footer: None,
        }
    }
}

/// All source descriptors and resolved section links.
#[derive(Debug, Clone, PartialEq, Eq)]
pub struct HeaderFooterTable {
    stories: Vec<HeaderFooterStory>,
    sections: Vec<SectionHeaderFooters>,
}

impl Default for HeaderFooterTable {
    fn default() -> (res: Self)
        ensures
            res.spec_stories().len() == 0,
            res.spec_sections().len() == 0,
    {
        HeaderFooterTable { stories: Vec::new(), sections: Vec::new() }
    }
}

/// The kind of story `k` of a `PlcfHdd`.
pub open spec fn role_kind(k: int) -> HeaderFooterKind {
    if k < 6 {
        if k == 0 {
            HeaderFooterKind::FootnoteSeparator
        } else if k == 1 {
            HeaderFooterKind::FootnoteContinuationSeparator
        } else if k == 2 {
            HeaderFooterKind::FootnoteContinuationNotice
        } else if k == 3 {
            HeaderFooterKind::EndnoteSeparator
        } else if k == 4 {
            HeaderFooterKind::EndnoteContinuationSeparator
        } else {
            HeaderFooterKind::EndnoteContinuationNotice
        }
    } else {
        let r = (k - 6) % 6;
        if r == 0 {
            HeaderFooterKind::EvenHeader
        } else if r == 1 {
            HeaderFooterKind::OddHeader
        } else if r == 2 {
            HeaderFooterKind::EvenFooter
        } else if r == 3 {
            HeaderFooterKind::OddFooter
        } else if r == 4 {
            HeaderFooterKind::FirstHeader
        } else {
            HeaderFooterKind::FirstFooter
        }
    }
}

/// The section that story `k` belongs to; separators belong to none.
pub open spec fn role_section(k: int) -> Option<usize> {
    if k < 6 {
        None
    } else {
        Some(((k - 6) / 6) as usize)
    }
}

/// Index of the story for role `r` of section `s`.
pub open spec fn story_slot(s: int, r: int) -> int {
    6 + 6 * s + r
}

/// The content end of story `[a, b)` of the header subdocument `story`,
/// without its guard paragraph mark; `None` when the guard, or for a header
/// or footer (`whole`) the paragraph mark before it, is missing.
pub open spec fn guard_end(story: Story, a: u32, b: u32, whole: bool) -> Option<u32> {
    let u = story.content.utf16@;
    let last = b - story.cp_start - 1;
    let content_last = b - story.cp_start - 2;
    if a == b {
        Some(b)
    } else if last < 0 || last >= u.len() || u[last] != 0x000D {
        None
    } else if whole && (content_last < 0 || content_last >= u.len() || u[content_last] != 0x000D) {
        None
    } else {
        Some((b - 1) as u32)
    }
}

/// Number of stories a `PlcfHdd` of `plc` describes.
pub open spec fn hdd_story_count(plc: Seq<u8>) -> int {
    plc.len() / 4 - 2
}

/// Raw boundary `k` of a `PlcfHdd`.
pub open spec fn hdd_cp(plc: Seq<u8>, k: int) -> i32 {
    le_i32(plc, 4 * k)
}

/// The used boundaries of a `PlcfHdd`; the final, undefined CP is ignored.
pub open spec fn hdd_cps(plc: Seq<u8>) -> Seq<u32> {
    Seq::new((hdd_story_count(plc) + 1) as nat, |k: int| hdd_cp(plc, k) as u32)
}

/// Whether the boundaries of a `PlcfHdd` are invalid for header subdocument `story`.
pub open spec fn hdd_boundary_failure(plc: Seq<u8>, story: Story) -> bool {
    let n = hdd_story_count(plc);
    let cps = hdd_cps(plc);
    ||| exists|k: int| 0 <= k <= n && #[trigger] hdd_cp(plc, k) < 0
    ||| cps[0] != 0
    ||| !non_decreasing(cps)
    ||| story.cp_end < story.cp_start + 1
    ||| cps[n] != story.cp_end - story.cp_start - 1
}

/// Global start of story `k`.
pub open spec fn hdd_start(plc: Seq<u8>, story: Story, k: int) -> u32 {
    (story.cp_start + hdd_cps(plc)[k]) as u32
}

/// Global end of story `k`, guard included.
pub open spec fn hdd_end(plc: Seq<u8>, story: Story, k: int) -> u32 {
    (story.cp_start + hdd_cps(plc)[k + 1]) as u32
}

/// Whether story `k` has the guard paragraph its role needs.
pub open spec fn hdd_guard_ok(plc: Seq<u8>, story: Story, k: int) -> bool {
    guard_end(story, hdd_start(plc, story, k), hdd_end(plc, story, k), k >= 6) is Some
}

/// Descriptor of story `k`.
pub open spec fn hdd_story_at(plc: Seq<u8>, story: Story, k: int) -> HeaderFooterStory {
    HeaderFooterStory {
        index: k as usize,
        kind: role_kind(k),
        section_index: role_section(k),
        cp_start: hdd_start(plc, story, k),
        cp_content_end: guard_end(story, hdd_start(plc, story, k), hdd_end(plc, story, k), k >= 6).unwrap(),
        cp_end: hdd_end(plc, story, k),
    }
}

/// The story descriptors a `PlcfHdd` gives for header subdocument `story`
/// and `section_count` sections, or the kind of the failure.
pub open spec fn hdd_outcome(plc: Seq<u8>, story: Story, section_count: int, limits: DocLimits) -> Outcome<
    Seq<HeaderFooterStory>,
> {
    let n = hdd_story_count(plc);
    if plc.len() % 4 != 0 || plc.len() < 8 || n != 6 + 6 * section_count {
        Err(ErrorKind::InvalidHeaderFooter)
    } else if n > limits.max_header_footer_stories {
        Err(ErrorKind::ResourceLimit)
    } else if hdd_boundary_failure(plc, story) || exists|k: int|
        0 <= k < n && !#[trigger] hdd_guard_ok(plc, story, k) {
        Err(ErrorKind::InvalidHeaderFooter)
    } else {
        Ok(Seq::new(n as nat, |k: int| hdd_story_at(plc, story, k)))
    }
}

/// The latest section up to `s` whose story for role `r` is non-empty, as
/// that story's index.
pub open spec fn latest_source(stories: Seq<HeaderFooterStory>, r: int, s: int) -> Option<usize>
    decreases s + 1,
{
    if s < 0 {
        None
    } else if stories[story_slot(s, r)].cp_start != stories[story_slot(s, r)].cp_end {
        Some(story_slot(s, r) as usize)
    } else {
        latest_source(stories, r, s - 1)
    }
}

/// The link of role `r` in section `s`: its own story when that is non-empty,
/// else the latest earlier non-empty story of the role, marked inherited.
pub open spec fn link_at(stories: Seq<HeaderFooterStory>, r: int, s: int) -> Option<HeaderFooterLink> {
    let k = story_slot(s, r);
    if stories[k].cp_start != stories[k].cp_end {
        Some(HeaderFooterLink { story_index: k as usize, inherited: false })
    } else {
        match latest_source(stories, r, s - 1) {
            Some(i) => Some(HeaderFooterLink { story_index: i, inherited: true }),
            None => None,
        }
    }
}

/// The link of role `r` (in the order even header, odd header, even footer,
/// odd footer, first header, first footer) of `sec`.
pub open spec fn section_link(sec: SectionHeaderFooters, r: int) -> Option<HeaderFooterLink> {
    if r == 0 {
        sec.even_header
    } else if r == 1 {
        sec.odd_header
    } else if r == 2 {
        sec.even_footer
    } else if r == 3 {
        sec.odd_footer
    } else if r == 4 {
        sec.first_header
    } else {
        sec.first_footer
    }
}

/// Whether `sections` are the `n` sections resolved from `stories`.
pub open spec fn sections_resolved(sections: Seq<SectionHeaderFooters>, stories: Seq<HeaderFooterStory>, n: int) -> bool {
    &&& sections.len() == n
    &&& forall|s: int| 0 <= s < n ==> (#[trigger] sections[s]).section_index == s
    &&& forall|s: int, r: int|
        0 <= s < n && 0 <= r < 6 ==> #[trigger] section_link(sections[s], r) == link_at(stories, r, s)
}

/// Whether `t` holds `stories` and the links of `n` sections resolved from them.
pub open spec fn table_matches(t: HeaderFooterTable, stories: Seq<HeaderFooterStory>, n: int) -> bool {
    t.spec_stories() == stories && sections_resolved(t.spec_sections(), stories, n)
}

/// What `HeaderFooterTable::parse` gives for `doc`.
pub open spec fn header_footer_table_result(doc: WordBinaryDocument, limits: DocLimits, res: Result<HeaderFooterTable>) -> bool {
    let fib = doc.spec_fib();
    let table = doc.spec_table();
    let hs = doc.spec_stories()[2];
    let l = fib.locations.spec_get(INDEX_PLCF_HDD);
    match section_count_outcome(
        fib,
        doc.spec_word().subrange(0, fib.word_document_length as int),
        table,
        limits,
    ) {
        Err(e) => res is Err && res->Err_0.kind() == e,
        Ok(n) => if hs.cp_start == hs.cp_end {
            res matches Ok(t) && t.spec_stories().len() == 0 && t.spec_sections().len() == 0
        } else if l is None || l.unwrap().length == 0 {
            res is Err && res->Err_0.kind() == ErrorKind::InvalidHeaderFooter
        } else if l.unwrap().offset + l.unwrap().length > table.len() {
            res is Err && res->Err_0.kind() == ErrorKind::OutOfBounds
        } else {
            match hdd_outcome(
                table.subrange(l.unwrap().offset as int, l.unwrap().offset + l.unwrap().length),
                hs,
                n,
                limits,
            ) {
                Ok(st) => res matches Ok(t) && table_matches(t, st, n),
                Err(e) => res is Err && res->Err_0.kind() == e,
            }
        },
    }
}

/// The content end of an accepted story drops exactly its guard paragraph
/// mark: one character for a non-empty story, none for an empty one.
pub proof fn lemma_guard_strips_one_mark(story: Story, a: u32, b: u32, whole: bool)
    requires
        guard_end(story, a, b, whole) is Some,
    ensures
        guard_end(story, a, b, whole).unwrap() == if a == b {
            b
        } else {
            (b - 1) as u32
        },
{
}

/// An empty story of a section takes the link that the previous section has
/// for the same role, marked inherited; with no earlier source it has none.
pub proof fn lemma_empty_story_inherits(stories: Seq<HeaderFooterStory>, r: int, s: int)
    requires
        0 <= r < 6,
        1 <= s,
        stories[story_slot(s, r)].cp_start == stories[story_slot(s, r)].cp_end,
    ensures
        link_at(stories, r, s) == match link_at(stories, r, s - 1) {
            Some(l) => Some(HeaderFooterLink { story_index: l.story_index, inherited: true }),
            None => None,
        },
{
}

/// The latest source of a role is a non-empty story of that role in a
/// section no later than `s`.
proof fn lemma_latest_source(stories: Seq<HeaderFooterStory>, r: int, s: int)
    ensures
        latest_source(stories, r, s) matches Some(i) ==> exists|t: int|
            0 <= t <= s && i == #[trigger] story_slot(t, r) as usize && stories[story_slot(t, r)].cp_start
                != stories[story_slot(t, r)].cp_end,
    decreases s + 1,
{
    if s >= 0 && stories[story_slot(s, r)].cp_start == stories[story_slot(s, r)].cp_end {
        lemma_latest_source(stories, r, s - 1);
    }
}

/// Every link names a non-empty story of its own role, in the same or an
/// earlier section, and is marked inherited exactly when that section is
/// an earlier one.
pub proof fn lemma_link_source(stories: Seq<HeaderFooterStory>, r: int, s: int)
    requires
        0 <= r < 6,
        0 <= s,
    ensures
        link_at(stories, r, s) matches Some(l) ==> exists|t: int|
            0 <= t <= s && l.story_index == #[trigger] story_slot(t, r) as usize && stories[story_slot(
                t,
                r,
            )].cp_start != stories[story_slot(t, r)].cp_end && l.inherited == (t < s),
{
    lemma_latest_source(stories, r, s - 1);
    if stories[story_slot(s, r)].cp_start != stories[story_slot(s, r)].cp_end {
        assert(story_slot(s, r) as usize == story_slot(s, r) as usize);
    }
}

/// In the table parsed from a document, a section whose own story for role `r`
/// is empty has the previous section's link for that role, marked inherited
/// (or none when the previous section has none), and every link names a
/// non-empty story of its role in the same or an earlier section.
pub proof fn lemma_parsed_sections_inherit(
    doc: WordBinaryDocument,
    limits: DocLimits,
    t: HeaderFooterTable,
    r: int,
    s: int,
)
    requires
        header_footer_table_result(doc, limits, Ok::<HeaderFooterTable, DocError>(t)),
        0 <= r < 6,
        0 <= s < t.spec_sections().len(),
    ensures
        s >= 1 && t.spec_stories()[story_slot(s, r)].cp_start == t.spec_stories()[story_slot(s, r)].cp_end
            ==> section_link(t.spec_sections()[s], r) == match section_link(t.spec_sections()[s - 1], r) {
            Some(l) => Some(HeaderFooterLink { story_index: l.story_index, inherited: true }),
            None => None,
        },
        section_link(t.spec_sections()[s], r) matches Some(l) ==> exists|u: int|
            0 <= u <= s && l.story_index == #[trigger] story_slot(u, r) as usize && t.spec_stories()[story_slot(
                u,
                r,
            )].cp_start != t.spec_stories()[story_slot(u, r)].cp_end && l.inherited == (u < s),
{
    let stories = t.spec_stories();
    let n = t.spec_sections().len() as int;
    assert(sections_resolved(t.spec_sections(), stories, n));
    assert(section_link(t.spec_sections()[s], r) == link_at(stories, r, s));
    if s >= 1 {
        assert(section_link(t.spec_sections()[s - 1], r) == link_at(stories, r, s - 1));
        if stories[story_slot(s, r)].cp_start == stories[story_slot(s, r)].cp_end {
            lemma_empty_story_inherits(stories, r, s);
        }
    }
    lemma_link_source(stories, r, s);
}

/// The link of role `r` in section `s` by the section-table rule: the
/// section's own story when non-empty; none in the first section; else the
/// previous section's link, marked inherited.
pub open spec fn link_by_rule(t: HeaderFooterTable, r: int, s: int) -> Option<HeaderFooterLink> {
    let k = story_slot(s, r);
    if t.spec_stories()[k].cp_start != t.spec_stories()[k].cp_end {
        Some(HeaderFooterLink { story_index: k as usize, inherited: false })
    } else if s == 0 {
        None
    } else {
        match section_link(t.spec_sections()[s - 1], r) {
            Some(l) => Some(HeaderFooterLink { story_index: l.story_index, inherited: true }),
            None => None,
        }
    }
}

/// The table parsed from a document with a non-empty header subdocument has
/// six stories plus six per section, one entry per section in order, and
/// each section's link of each role follows the section-table rule.
pub proof fn lemma_header_footer_table(doc: WordBinaryDocument, limits: DocLimits, t: HeaderFooterTable)
    requires
        header_footer_table_result(doc, limits, Ok::<HeaderFooterTable, DocError>(t)),
        doc.spec_stories()[2].cp_start != doc.spec_stories()[2].cp_end,
    ensures
        section_count_outcome(
            doc.spec_fib(),
            doc.spec_word().subrange(0, doc.spec_fib().word_document_length as int),
            doc.spec_table(),
            limits,
        ) matches Ok(n) && t.spec_stories().len() == 6 + 6 * n && t.spec_sections().len() == n,
        forall|s: int| 0 <= s < t.spec_sections().len() ==> (#[trigger] t.spec_sections()[s]).section_index == s,
        forall|s: int, r: int|
            0 <= s < t.spec_sections().len() && 0 <= r < 6 ==> #[trigger] section_link(t.spec_sections()[s], r)
                == link_by_rule(t, r, s),
{
    let stories = t.spec_stories();
    let n = t.spec_sections().len() as int;
    assert(sections_resolved(t.spec_sections(), stories, n));
    assert forall|s: int, r: int| 0 <= s < n && 0 <= r < 6 implies #[trigger] section_link(t.spec_sections()[s], r)
        == link_by_rule(t, r, s) by {
        assert(section_link(t.spec_sections()[s], r) == link_at(stories, r, s));
        if s >= 1 {
            assert(section_link(t.spec_sections()[s - 1], r) == link_at(stories, r, s - 1));
            if stories[story_slot(s, r)].cp_start == stories[story_slot(s, r)].cp_end {
                lemma_empty_story_inherits(stories, r, s);
            }
        }
    }
}

/// A header/footer structure error with a fixed message.
fn invalid_header_footer(text: &str) -> (res: DocError)
    ensures
        res.kind() == ErrorKind::InvalidHeaderFooter,
{
    DocError::InvalidHeaderFooter(message(text))
}

impl HeaderFooterTable {
    /// The story descriptors in `PlcfHdd` order.
    pub closed spec fn spec_stories(&self) -> Seq<HeaderFooterStory> {
        self.stories@
    }

    /// The resolved links, one entry per section.
    pub closed spec fn spec_sections(&self) -> Seq<SectionHeaderFooters> {
        self.sections@
    }

    /// Parses `PlcfHdd`, strips only guard paragraph marks from content ranges,
    /// and resolves the specified empty-story inheritance between sections.
    pub fn parse(document: &WordBinaryDocument, limits: DocLimits) -> (res: Result<Self>)
        ensures
            header_footer_table_result(*document, limits, res),
    {
        let section_table = document.sections(limits);
        proof {
            let fib = document.spec_fib();
            lemma_section_count(
                fib,
                document.spec_word().subrange(0, fib.word_document_length as int),
                document.spec_table(),
                limits,
                section_table,
            );
        }
        let section_count = match section_table {
            Ok(t) => t.len(),
            Err(e) => {
                return Err(e);
            },
        };
        let header_story = match document.story(StoryKind::Headers) {
            Some(st) => st,
            None => {
                assert(story_kind_at(2) == StoryKind::Headers);
                return Ok(Self::default());
            },
        };
        proof {
            let i = choose|i: int|
                0 <= i < 7 && story_kind_at(i) == StoryKind::Headers && *header_story
                    == #[trigger] document.spec_stories()[i];
            assert(i == 2);
        }
        if header_story.cp_start == header_story.cp_end {
            return Ok(Self::default());
        }
        let location = match document.fib().locations.headers() {
            Some(l) => if l.is_empty() {
                return Err(invalid_header_footer("header story exists but PlcfHdd is empty"));
            } else {
                l
            },
            None => {
                return Err(invalid_header_footer("header story exists but PlcfHdd is empty"));
            },
        };
        let plc = checked_slice(document.table_stream(), location.offset, location.length, "PlcfHdd")?;
        Self::parse_plc(plc, header_story, section_count, limits)
    }

    /// Parses the `PlcfHdd` bytes `plc` of the header subdocument
    /// `header_story` for `section_count` sections.
    #[verifier::rlimit(40)]
    pub fn parse_plc(plc: &[u8], header_story: &Story, section_count: usize, limits: DocLimits) -> (res: Result<
        Self,
    >)
        ensures
            match hdd_outcome(plc@, *header_story, section_count as int, limits) {
                Ok(st) => res matches Ok(t) && table_matches(t, st, section_count as int),
                Err(e) => res is Err && res->Err_0.kind() == e,
            },
    {
        let len = plc.len();
        if len % 4 != 0 || len < 8 {
            return Err(invalid_header_footer("PlcfHdd length is not a non-empty CP array"));
        }
        let story_count = len / 4 - 2;
        if section_count > (usize::MAX - SEPARATOR_STORY_COUNT) / STORIES_PER_SECTION {
            return Err(invalid_header_footer("header story count overflow"));
        }
        let expected = SEPARATOR_STORY_COUNT + section_count * STORIES_PER_SECTION;
        if story_count != expected {
            return Err(invalid_header_footer("PlcfHdd story count does not match the section count"));
        }
        if story_count > limits.max_header_footer_stories {
            return Err(
                DocError::ResourceLimit {
                    resource: "header-footer-story",
                    actual: story_count as u64,
                    limit: limits.max_header_footer_stories as u64,
                },
            );
        }
        let ghost p = plc@;
        let ghost hs = *header_story;
        let cps = match read_hdd_cps(plc, story_count) {
            Ok(v) => v,
            Err(e) => {
                assert(hdd_boundary_failure(p, hs));
                return Err(e);
            },
        };
        if cps[0] != 0 || !is_non_decreasing(cps.as_slice()) {
            return Err(invalid_header_footer("PlcfHdd CPs must begin at zero and be nondecreasing"));
        }
        if header_story.cp_end < header_story.cp_start || header_story.cp_end - header_story.cp_start < 1 {
            return Err(invalid_header_footer("header story is too short for PlcfHdd"));
        }
        let expected_terminal = header_story.cp_end - header_story.cp_start - 1;
        if cps[story_count] != expected_terminal {
            return Err(invalid_header_footer("PlcfHdd terminal CP does not match the header story length"));
        }
        assert(!hdd_boundary_failure(p, hs));
        let mut stories: Vec<HeaderFooterStory> = Vec::new();
        let mut index: usize = 0;
        while index < story_count
            invariant
                p == plc@,
                hs == *header_story,
                p.len() % 4 == 0,
                p.len() >= 8,
                story_count <= limits.max_header_footer_stories,
                story_count == hdd_story_count(p),
                story_count == 6 + 6 * section_count,
                !hdd_boundary_failure(p, hs),
                cps@ == hdd_cps(p),
                expected_terminal == header_story.cp_end - header_story.cp_start - 1,
                index <= story_count,
                stories@.len() == index,
                forall|k: int| 0 <= k < index ==> #[trigger] hdd_guard_ok(p, hs, k),
                forall|k: int| 0 <= k < index ==> #[trigger] stories@[k] == hdd_story_at(p, hs, k),
            decreases story_count - index,
        {
            let relative_start = cps[index];
            let relative_end = cps[index + 1];
            assert(relative_end <= expected_terminal) by {
                assert(cps@[index + 1] <= cps@[story_count as int]);
            }
            let cp_start = header_story.cp_start + relative_start;
            let cp_end = header_story.cp_start + relative_end;
            let (kind, section_index) = story_role(index);
            let cp_content_end = match validate_guard(header_story, cp_start, cp_end, section_index.is_some()) {
                Ok(v) => v,
                Err(e) => {
                    assert(!hdd_guard_ok(p, hs, index as int));
                    return Err(e);
                },
            };
            stories.push(HeaderFooterStory { index, kind, section_index, cp_start, cp_content_end, cp_end });
            index = index + 1;
        }
        let ghost expected_stories = Seq::new(story_count as nat, |k: int| hdd_story_at(p, hs, k));
        assert(stories@ =~= expected_stories);
        assert(forall|k: int| 0 <= k < stories@.len() ==> (#[trigger] stories@[k]).index == k);
        let sections = resolve_section_links(stories.as_slice(), section_count);
        Ok(HeaderFooterTable { stories, sections })
    }

    /// The story descriptors in `PlcfHdd` order.
    pub fn stories(&self) -> (res: &[HeaderFooterStory])
        ensures
            res@ == self.spec_stories(),
    {
        self.stories.as_slice()
    }

    /// The resolved links, one entry per section.
    pub fn sections(&self) -> (res: &[SectionHeaderFooters])
        ensures
            res@ == self.spec_sections(),
    {
        self.sections.as_slice()
    }
}

/// Reads the `count + 1` used boundaries of a `PlcfHdd`; none may be negative.
fn read_hdd_cps(plc: &[u8], count: usize) -> (res: Result<Vec<u32>>)
    requires
        plc@.len() == 4 * (count + 2),
        count == hdd_story_count(plc@),
    ensures
        res is Ok <==> forall|k: int| 0 <= k <= count ==> #[trigger] hdd_cp(plc@, k) >= 0,
        res matches Ok(v) ==> v@ == hdd_cps(plc@),
        res is Err ==> res->Err_0.kind() == ErrorKind::InvalidHeaderFooter,
{
    let ghost expected = hdd_cps(plc@);
    let len = plc.len();
    let mut cps: Vec<u32> = Vec::new();
    let mut k: usize = 0;
    while k <= count
        invariant
            len == plc@.len(),
            plc@.len() == 4 * (count + 2),
            count == hdd_story_count(plc@),
            expected == hdd_cps(plc@),
            k <= count + 1,
            cps@ == expected.take(k as int),
            forall|j: int| 0 <= j < k ==> #[trigger] hdd_cp(plc@, j) >= 0,
        decreases count + 1 - k,
    {
        let cp = read_i32_le(plc, 4 * k);
        if cp < 0 {
            assert(hdd_cp(plc@, k as int) < 0);
            return Err(invalid_header_footer("PlcfHdd contains a negative CP"));
        }
        cps.push(cp as u32);
        assert(cps@ =~= expected.take(k as int + 1));
        k = k + 1;
    }
    assert(cps@ =~= expected);
    Ok(cps)
}

/// Checks the guard paragraph mark of story `[cp_start, cp_end)` and, for a
/// header or footer, the complete paragraph before it; returns the content end.
fn validate_guard(story: &Story, cp_start: u32, cp_end: u32, whole_paragraph_story: bool) -> (res: Result<u32>)
    ensures
        match guard_end(*story, cp_start, cp_end, whole_paragraph_story) {
            Some(v) => res == Ok::<u32, DocError>(v),
            None => res is Err && res->Err_0.kind() == ErrorKind::InvalidHeaderFooter,
        },
{
    if cp_start == cp_end {
        return Ok(cp_end);
    }
    if cp_end < story.cp_start || cp_end - story.cp_start < 1 {
        return Err(invalid_header_footer("story falls outside its header subdocument"));
    }
    let units = &story.content.utf16;
    let last = (cp_end - story.cp_start - 1) as usize;
    if last >= units.len() || units[last] != 0x000D {
        return Err(invalid_header_footer("non-empty story has no guard paragraph mark"));
    }
    let content_end = cp_end - 1;
    if whole_paragraph_story {
        if content_end < story.cp_start || content_end - story.cp_start < 1 {
            return Err(invalid_header_footer("header/footer story has no complete content paragraph"));
        }
        let content_last = (content_end - story.cp_start - 1) as usize;
        if content_last >= units.len() || units[content_last] != 0x000D {
            return Err(invalid_header_footer("header/footer story does not end its content with a paragraph mark"));
        }
    }
    Ok(content_end)
}

/// The kind and section of story `index`.
fn story_role(index: usize) -> (res: (HeaderFooterKind, Option<usize>))
    ensures
        res.0 == role_kind(index as int),
        res.1 == role_section(index as int),
{
    if index < SEPARATOR_STORY_COUNT {
        let kind = if index == 0 {
            HeaderFooterKind::FootnoteSeparator
        } else if index == 1 {
            HeaderFooterKind::FootnoteContinuationSeparator
        } else if index == 2 {
            HeaderFooterKind::FootnoteContinuationNotice
        } else if index == 3 {
            HeaderFooterKind::EndnoteSeparator
        } else if index == 4 {
            HeaderFooterKind::EndnoteContinuationSeparator
        } else {
            HeaderFooterKind::EndnoteContinuationNotice
        };
        return (kind, None);
    }
    let relative = index - SEPARATOR_STORY_COUNT;
    let r = relative % STORIES_PER_SECTION;
    let kind = if r == 0 {
        HeaderFooterKind::EvenHeader
    } else if r == 1 {
        HeaderFooterKind::OddHeader
    } else if r == 2 {
        HeaderFooterKind::EvenFooter
    } else if r == 3 {
        HeaderFooterKind::OddFooter
    } else if r == 4 {
        HeaderFooterKind::FirstHeader
    } else {
        HeaderFooterKind::FirstFooter
    };
    (kind, Some(relative / STORIES_PER_SECTION))
}

/// Resolves the six role links of each section, inheriting the latest
/// earlier non-empty story of a role when the section's own story is empty.
fn resolve_section_links(stories: &[HeaderFooterStory], section_count: usize) -> (res: Vec<SectionHeaderFooters>)
    requires
        stories@.len() == 6 + 6 * section_count,
        forall|k: int| 0 <= k < stories@.len() ==> (#[trigger] stories@[k]).index == k,
    ensures
        sections_resolved(res@, stories@, section_count as int),
{
    let total = stories.len();
    let mut previous: Vec<Option<usize>> = vec![None, None, None, None, None, None];
    let mut result: Vec<SectionHeaderFooters> = Vec::new();
    let mut section_index: usize = 0;
    while section_index < section_count
        invariant
            total == stories@.len(),
            stories@.len() == 6 + 6 * section_count,
            forall|k: int| 0 <= k < stories@.len() ==> (#[trigger] stories@[k]).index == k,
            section_index <= section_count,
            previous@.len() == 6,
            forall|r: int| 0 <= r < 6 ==> #[trigger] previous@[r] == latest_source(stories@, r, section_index - 1),
            sections_resolved(result@, stories@, section_index as int),
        decreases section_count - section_index,
    {
        let start = SEPARATOR_STORY_COUNT + section_index * STORIES_PER_SECTION;
        let mut links: Vec<Option<HeaderFooterLink>> = Vec::new();
        let mut role: usize = 0;
        while role < STORIES_PER_SECTION
            invariant
                total == stories@.len(),
                stories@.len() == 6 + 6 * section_count,
                forall|k: int| 0 <= k < stories@.len() ==> (#[trigger] stories@[k]).index == k,
                section_index < section_count,
                start == story_slot(section_index as int, 0),
                role <= 6,
                previous@.len() == 6,
                links@.len() == role,
                forall|q: int| 0 <= q < role ==> #[trigger] links@[q] == link_at(stories@, q, section_index as int),
                forall|q: int|
                    0 <= q < role ==> #[trigger] previous@[q] == latest_source(stories@, q, section_index as int),
                forall|q: int|
                    role <= q < 6 ==> #[trigger] previous@[q] == latest_source(stories@, q, section_index - 1),
            decreases 6 - role,
        {
            let story = &stories[start + role];
            assert(start + role == story_slot(section_index as int, role as int));
            if story.is_empty() {
                let link = match previous[role] {
                    Some(i) => Some(HeaderFooterLink { story_index: i, inherited: true }),
                    None => None,
                };
                links.push(link);
            } else {
                previous.set(role, Some(story.index));
                links.push(Some(HeaderFooterLink { story_index: story.index, inherited: false }));
            }
            role = role + 1;
        }
        let sec = SectionHeaderFooters {
            section_index,
            even_header: links[0],
            odd_header: links[1],
            even_footer: links[2],
            odd_footer: links[3],
            first_header: links[4],
            first_footer: links[5],
        };
        proof {
            assert forall|r: int| 0 <= r < 6 implies #[trigger] section_link(sec, r) == link_at(
                stories@,
                r,
                section_index as int,
            ) by {
                assert(links@[r] == link_at(stories@, r, section_index as int));
            }
        }
        let ghost before = result@;
        result.push(sec);
        proof {
            assert forall|s: int, r: int|
                0 <= s < section_index + 1 && 0 <= r < 6 implies #[trigger] section_link(result@[s], r) == link_at(
                stories@,
                r,
                s,
            ) by {
                if s < section_index {
                    assert(result@[s] == before[s]);
                    assert(section_link(before[s], r) == link_at(stories@, r, s));
                }
            }
        }
        section_index = section_index + 1;
    }
    result
}

} // verus!

//! File Information Block parsing for Word 97–2003 binary documents.

use vstd::prelude::*;

use crate::binary::{ByteCursor, le_i32, le_u16, le_u32, read_u16_le};
use crate::error::{DocError, ErrorKind, Result, err_kind, message};
use crate::limits::DocLimits;

verus! {

/// `wIdent` of a Word 97 or later binary document.
pub const WORD_BINARY_IDENT: u16 = 0xA5EC;

/// `wIdent` of a Word 6 binary document.
pub const WORD_6_IDENT: u16 = 0xA5DC;

pub const INDEX_STSHF: usize = 1;
pub const INDEX_PLCF_FND_REF: usize = 2;
pub const INDEX_PLCF_FND_TXT: usize = 3;
pub const INDEX_PLCF_AND_REF: usize = 4;
pub const INDEX_PLCF_AND_TXT: usize = 5;
pub const INDEX_PLCF_SED: usize = 6;
pub const INDEX_PLCF_HDD: usize = 11;
pub const INDEX_PLCF_BTE_CHPX: usize = 12;
pub const INDEX_PLCF_BTE_PAPX: usize = 13;
pub const INDEX_STTBF_FFN: usize = 15;
pub const INDEX_PLCF_FLD_MOM: usize = 16;
pub const INDEX_PLCF_FLD_HDR: usize = 17;
pub const INDEX_PLCF_FLD_FTN: usize = 18;
pub const INDEX_PLCF_FLD_ATN: usize = 19;
pub const INDEX_CLX: usize = 33;
pub const INDEX_GRP_XST_ATN_OWNERS: usize = 36;
pub const INDEX_STTBF_ATN_BKMK: usize = 37;
pub const INDEX_PLCF_ATN_BKF: usize = 42;
pub const INDEX_PLCF_ATN_BKL: usize = 43;
pub const INDEX_PLF_LST: usize = 73;
pub const INDEX_PLF_LFO: usize = 74;
pub const INDEX_PLCF_END_REF: usize = 46;
pub const INDEX_PLCF_END_TXT: usize = 47;
pub const INDEX_PLCF_FLD_EDN: usize = 48;
pub const INDEX_PLCF_TXBX_TXT: usize = 56;
pub const INDEX_PLCF_FLD_TXBX: usize = 57;
pub const INDEX_PLCF_HDR_TXBX_TXT: usize = 58;
pub const INDEX_PLCF_FLD_HDR_TXBX: usize = 59;

/// Offset/length pair stored in `FibRgFcLcb`.
#[derive(Debug, Clone, Copy, Default, PartialEq, Eq, Structural)]
pub struct FcLcb {
    /// Byte offset in the stream defined by the corresponding FIB field.
    pub offset: u32,
    /// Byte length of the referenced structure.
    pub length: u32,
}

impl FcLcb {
    /// Whether the referenced structure is absent.
    pub fn is_empty(self) -> (res: bool)
        ensures
            res == (self.length == 0),
    {
        self.length == 0
    }
}

/// Fixed 32-byte `FibBase` fields relevant to parsing and security.
#[derive(Debug, Clone, Copy, PartialEq, Eq, Structural)]
pub struct FibBase {
    /// Version recorded in the fixed header.
    pub version: u16,
    /// Installation language identifier.
    pub language_id: u16,
    /// Whether `1Table` is selected instead of `0Table`.
    pub use_table1: bool,
    /// Whether the document contains picture records.
    pub has_pictures: bool,
    /// Whether the last save was incremental/complex.
    pub is_complex: bool,
}

/// Declared CP lengths of the Word subdocuments (stories).
#[derive(Debug, Clone, Copy, Default, PartialEq, Eq, Structural)]
pub struct StoryLengths {
    /// Main document story.
    pub main: u32,
    /// Footnote story.
    pub footnotes: u32,
    /// Header/footer story.
    pub headers: u32,
    /// Comment story.
    pub comments: u32,
    /// Endnote story.
    pub endnotes: u32,
    /// Main-document textbox story.
    pub textboxes: u32,
    /// Header textbox story.
    pub header_textboxes: u32,
}

impl StoryLengths {
    /// Mathematical sum of the seven story lengths.
    pub open spec fn spec_total(self) -> int {
        self.main as int + self.footnotes as int + self.headers as int + self.comments as int
            + self.endnotes as int + self.textboxes as int + self.header_textboxes as int
    }

    /// Whether any story other than the main one is non-empty.
    pub open spec fn spec_has_auxiliary(self) -> bool {
        self.footnotes != 0 || self.headers != 0 || self.comments != 0 || self.endnotes != 0
            || self.textboxes != 0 || self.header_textboxes != 0
    }

    /// CP expected as the last entry of `PlcPcd`: one past the stories when an
    /// auxiliary story exists.
    pub open spec fn spec_piece_table_end(self) -> int {
        if self.spec_has_auxiliary() {
            self.spec_total() + 1
        } else {
            self.spec_total()
        }
    }

    /// Sum of declared story lengths, excluding the optional terminal CLX CP.
    pub fn total(self) -> (res: Result<u32>)
        ensures
            res is Ok <==> self.spec_total() <= u32::MAX,
            res is Ok ==> res->Ok_0 == self.spec_total(),
            res is Err ==> res->Err_0.kind() == ErrorKind::InvalidFib,
    {
        let values = [
            self.main,
            self.footnotes,
            self.headers,
            self.comments,
            self.endnotes,
            self.textboxes,
            self.header_textboxes,
        ];
        let mut sum: u32 = 0;
        let mut i: usize = 0;
        proof {
            reveal_with_fuel(prefix_sum, 8);
        }
        while i < 7
            invariant
                0 <= i <= 7,
                values@ == seq![
                    self.main,
                    self.footnotes,
                    self.headers,
                    self.comments,
                    self.endnotes,
                    self.textboxes,
                    self.header_textboxes,
                ],
                sum == prefix_sum(values@, i as int),
                prefix_sum(values@, 7) == self.spec_total(),
            decreases 7 - i,
        {
            proof {
                lemma_prefix_sum_monotone(values@, i as int + 1, 7);
            }
            if values[i] > u32::MAX - sum {
                return Err(DocError::InvalidFib(message("story character counts overflow u32")));
            }
            sum = sum + values[i];
            i = i + 1;
        }
        Ok(sum)
    }

    /// CP expected as the last entry in `PlcPcd`.
    pub fn piece_table_end(self) -> (res: Result<u32>)
        ensures
            res is Ok <==> self.spec_piece_table_end() <= u32::MAX,
            res is Ok ==> res->Ok_0 == self.spec_piece_table_end(),
            res is Err ==> res->Err_0.kind() == ErrorKind::InvalidFib,
    {
        let total = self.total()?;
        if self.has_auxiliary_story() {
            if total == u32::MAX {
                return Err(DocError::InvalidFib(message("piece-table terminal CP overflows u32")));
            }
            Ok(total + 1)
        } else {
            Ok(total)
        }
    }

    /// Whether any auxiliary story is non-empty.
    pub fn has_auxiliary_story(self) -> (res: bool)
        ensures
            res == self.spec_has_auxiliary(),
    {
        self.footnotes != 0 || self.headers != 0 || self.comments != 0 || self.endnotes != 0
            || self.textboxes != 0 || self.header_textboxes != 0
    }
}

/// Sum of the first `n` values of `s`.
pub open spec fn prefix_sum(s: Seq<u32>, n: int) -> int
    decreases n,
{
    if n <= 0 {
        0
    } else {
        prefix_sum(s, n - 1) + s[n - 1] as int
    }
}

proof fn lemma_prefix_sum_monotone(s: Seq<u32>, i: int, j: int)
    requires
        0 <= i <= j <= s.len(),
    ensures
        prefix_sum(s, i) <= prefix_sum(s, j),
    decreases j - i,
{
    if i < j {
        lemma_prefix_sum_monotone(s, i, j - 1);
    }
}

/// Variable `FibRgFcLcb` locations retained for later structural parsers.
#[derive(Debug, Clone, PartialEq, Eq)]
pub struct FibLocations {
    pairs: Vec<FcLcb>,
}

impl View for FibLocations {
    type V = Seq<FcLcb>;

    closed spec fn view(&self) -> Seq<FcLcb> {
        self.pairs@
    }
}

impl FibLocations {
    /// The pair stored at `index`, if present.
    pub open spec fn spec_get(&self, index: usize) -> Option<FcLcb> {
        if index < self@.len() {
            Some(self@[index as int])
        } else {
            None
        }
    }

    /// Locations holding exactly `pairs`.
    pub fn from_pairs(pairs: Vec<FcLcb>) -> (res: Self)
        ensures
            res@ == pairs@,
    {
        Self { pairs }
    }

    /// Return a raw pair by its normative `FibRgFcLcb97` index.
    pub fn get(&self, index: usize) -> (res: Option<FcLcb>)
        ensures
            res == self.spec_get(index),
    {
        if index < self.pairs.len() {
            Some(self.pairs[index])
        } else {
            None
        }
    }

    /// Number of location pairs present in this FIB revision.
    pub fn len(&self) -> (res: usize)
        ensures
            res == self@.len(),
    {
        self.pairs.len()
    }

    /// Whether no pairs were present.
    pub fn is_empty(&self) -> (res: bool)
        ensures
            res == (self@.len() == 0),
    {
        self.pairs.len() == 0
    }

    /// Style sheet (`STSH`).
    pub fn stylesheet(&self) -> (res: Option<FcLcb>)
        ensures
            res == self.spec_get(INDEX_STSHF),
    {
        self.get(INDEX_STSHF)
    }

    /// Section descriptor PLC (`PlcfSed`).
    pub fn sections(&self) -> (res: Option<FcLcb>)
        ensures
            res == self.spec_get(INDEX_PLCF_SED),
    {
        self.get(INDEX_PLCF_SED)
    }

    /// Footnote reference PLC (`PlcffndRef`).
    pub fn footnote_references(&self) -> (res: Option<FcLcb>)
        ensures
            res == self.spec_get(INDEX_PLCF_FND_REF),
    {
        self.get(INDEX_PLCF_FND_REF)
    }

    /// Footnote text-boundary PLC (`PlcffndTxt`).
    pub fn footnote_text(&self) -> (res: Option<FcLcb>)
        ensures
            res == self.spec_get(INDEX_PLCF_FND_TXT),
    {
        self.get(INDEX_PLCF_FND_TXT)
    }

    /// Comment reference PLC (`PlcfandRef`).
    pub fn comment_references(&self) -> (res: Option<FcLcb>)
        ensures
            res == self.spec_get(INDEX_PLCF_AND_REF),
    {
        self.get(INDEX_PLCF_AND_REF)
    }

    /// Comment text-boundary PLC (`PlcfandTxt`).
    pub fn comment_text(&self) -> (res: Option<FcLcb>)
        ensures
            res == self.spec_get(INDEX_PLCF_AND_TXT),
    {
        self.get(INDEX_PLCF_AND_TXT)
    }

    /// Array of comment-author names (`GrpXstAtnOwners`).
    pub fn comment_authors(&self) -> (res: Option<FcLcb>)
        ensures
            res == self.spec_get(INDEX_GRP_XST_ATN_OWNERS),
    {
        self.get(INDEX_GRP_XST_ATN_OWNERS)
    }

    /// Annotation bookmark metadata (`SttbfAtnBkmk`).
    pub fn comment_bookmarks(&self) -> (res: Option<FcLcb>)
        ensures
            res == self.spec_get(INDEX_STTBF_ATN_BKMK),
    {
        self.get(INDEX_STTBF_ATN_BKMK)
    }

    /// Annotation bookmark start PLC (`PlcfAtnBkf`).
    pub fn comment_bookmark_starts(&self) -> (res: Option<FcLcb>)
        ensures
            res == self.spec_get(INDEX_PLCF_ATN_BKF),
    {
        self.get(INDEX_PLCF_ATN_BKF)
    }

    /// Annotation bookmark end PLC (`PlcfAtnBkl`).
    pub fn comment_bookmark_ends(&self) -> (res: Option<FcLcb>)
        ensures
            res == self.spec_get(INDEX_PLCF_ATN_BKL),
    {
        self.get(INDEX_PLCF_ATN_BKL)
    }

    /// List definitions (`PlfLst`); appended `LVL` records follow this range.
    pub fn list_definitions(&self) -> (res: Option<FcLcb>)
        ensures
            res == self.spec_get(INDEX_PLF_LST),
    {
        self.get(INDEX_PLF_LST)
    }

    /// List format overrides (`PlfLfo`).
    pub fn list_overrides(&self) -> (res: Option<FcLcb>)
        ensures
            res == self.spec_get(INDEX_PLF_LFO),
    {
        self.get(INDEX_PLF_LFO)
    }

    /// Header/footer boundary PLC (`PlcfHdd`).
    pub fn headers(&self) -> (res: Option<FcLcb>)
        ensures
            res == self.spec_get(INDEX_PLCF_HDD),
    {
        self.get(INDEX_PLCF_HDD)
    }

    /// Character formatting bin-table PLC.
    pub fn character_bte(&self) -> (res: Option<FcLcb>)
        ensures
            res == self.spec_get(INDEX_PLCF_BTE_CHPX),
    {
        self.get(INDEX_PLCF_BTE_CHPX)
    }

    /// Paragraph formatting bin-table PLC.
    pub fn paragraph_bte(&self) -> (res: Option<FcLcb>)
        ensures
            res == self.spec_get(INDEX_PLCF_BTE_PAPX),
    {
        self.get(INDEX_PLCF_BTE_PAPX)
    }

    /// Font table (`SttbfFfn`).
    pub fn fonts(&self) -> (res: Option<FcLcb>)
        ensures
            res == self.spec_get(INDEX_STTBF_FFN),
    {
        self.get(INDEX_STTBF_FFN)
    }

    /// Main-document field PLC (`PlcfFldMom`).
    pub fn main_fields(&self) -> (res: Option<FcLcb>)
        ensures
            res == self.spec_get(INDEX_PLCF_FLD_MOM),
    {
        self.get(INDEX_PLCF_FLD_MOM)
    }

    /// Header/footer field PLC (`PlcfFldHdr`).
    pub fn header_fields(&self) -> (res: Option<FcLcb>)
        ensures
            res == self.spec_get(INDEX_PLCF_FLD_HDR),
    {
        self.get(INDEX_PLCF_FLD_HDR)
    }

    /// Footnote field PLC (`PlcfFldFtn`).
    pub fn footnote_fields(&self) -> (res: Option<FcLcb>)
        ensures
            res == self.spec_get(INDEX_PLCF_FLD_FTN),
    {
        self.get(INDEX_PLCF_FLD_FTN)
    }

    /// Comment field PLC (`PlcfFldAtn`).
    pub fn comment_fields(&self) -> (res: Option<FcLcb>)
        ensures
            res == self.spec_get(INDEX_PLCF_FLD_ATN),
    {
        self.get(INDEX_PLCF_FLD_ATN)
    }

    /// Text piece table (`Clx`).
    pub fn clx(&self) -> (res: Option<FcLcb>)
        ensures
            res == self.spec_get(INDEX_CLX),
    {
        self.get(INDEX_CLX)
    }

    /// Endnote reference PLC.
    pub fn endnote_references(&self) -> (res: Option<FcLcb>)
        ensures
            res == self.spec_get(INDEX_PLCF_END_REF),
    {
        self.get(INDEX_PLCF_END_REF)
    }

    /// Endnote text-boundary PLC.
    pub fn endnote_text(&self) -> (res: Option<FcLcb>)
        ensures
            res == self.spec_get(INDEX_PLCF_END_TXT),
    {
        self.get(INDEX_PLCF_END_TXT)
    }

    /// Endnote field PLC (`PlcfFldEdn`).
    pub fn endnote_fields(&self) -> (res: Option<FcLcb>)
        ensures
            res == self.spec_get(INDEX_PLCF_FLD_EDN),
    {
        self.get(INDEX_PLCF_FLD_EDN)
    }

    /// Main textbox text-boundary PLC.
    pub fn textbox_text(&self) -> (res: Option<FcLcb>)
        ensures
            res == self.spec_get(INDEX_PLCF_TXBX_TXT),
    {
        self.get(INDEX_PLCF_TXBX_TXT)
    }

    /// Main-textbox field PLC (`PlcfFldTxbx`).
    pub fn textbox_fields(&self) -> (res: Option<FcLcb>)
        ensures
            res == self.spec_get(INDEX_PLCF_FLD_TXBX),
    {
        self.get(INDEX_PLCF_FLD_TXBX)
    }

    /// Header textbox text-boundary PLC.
    pub fn header_textbox_text(&self) -> (res: Option<FcLcb>)
        ensures
            res == self.spec_get(INDEX_PLCF_HDR_TXBX_TXT),
    {
        self.get(INDEX_PLCF_HDR_TXBX_TXT)
    }

    /// Header-textbox field PLC (`PlcfFldHdrTxbx`).
    pub fn header_textbox_fields(&self) -> (res: Option<FcLcb>)
        ensures
            res == self.spec_get(INDEX_PLCF_FLD_HDR_TXBX),
    {
        self.get(INDEX_PLCF_FLD_HDR_TXBX)
    }
}

/// Parsed File Information Block.
#[derive(Debug, Clone, PartialEq, Eq)]
pub struct Fib {
    /// Fixed header fields.
    pub base: FibBase,
    /// Effective FIB version after applying `nFibNew`, when present.
    pub effective_version: u16,
    /// Meaningful byte length of the `WordDocument` stream.
    pub word_document_length: u32,
    /// Story character counts.
    pub stories: StoryLengths,
    /// Locations of referenced structures.
    pub locations: FibLocations,
    /// Total bytes consumed by the variable FIB.
    pub byte_length: usize,
}

// ---- Layout of the variable-length FIB, as offsets into the `WordDocument` stream.

/// `csw`: number of 16-bit values in `FibRgW97`.
pub open spec fn fib_csw(s: Seq<u8>) -> int {
    le_u16(s, 32) as int
}

/// Offset of `cslw`.
pub open spec fn fib_cslw_offset(s: Seq<u8>) -> int {
    34 + 2 * fib_csw(s)
}

/// `cslw`: number of 32-bit values in `FibRgLw97`.
pub open spec fn fib_cslw(s: Seq<u8>) -> int {
    le_u16(s, fib_cslw_offset(s)) as int
}

/// Offset of `FibRgLw97`.
pub open spec fn fib_lw_offset(s: Seq<u8>) -> int {
    fib_cslw_offset(s) + 2
}

/// Offset of `cbRgFcLcb`.
pub open spec fn fib_pair_count_offset(s: Seq<u8>) -> int {
    fib_lw_offset(s) + 4 * fib_cslw(s)
}

/// `cbRgFcLcb`: number of offset/length pairs.
pub open spec fn fib_pair_count(s: Seq<u8>) -> int {
    le_u16(s, fib_pair_count_offset(s)) as int
}

/// Offset of `FibRgFcLcb`.
pub open spec fn fib_pairs_offset(s: Seq<u8>) -> int {
    fib_pair_count_offset(s) + 2
}

/// Offset of `cswNew`.
pub open spec fn fib_csw_new_offset(s: Seq<u8>) -> int {
    fib_pairs_offset(s) + 8 * fib_pair_count(s)
}

/// `cswNew`: number of 16-bit values in `FibRgCswNew`.
pub open spec fn fib_csw_new(s: Seq<u8>) -> int {
    le_u16(s, fib_csw_new_offset(s)) as int
}

/// Total FIB byte length.
pub open spec fn fib_end(s: Seq<u8>) -> int {
    fib_csw_new_offset(s) + 2 + 2 * fib_csw_new(s)
}

/// The `k`-th 32-bit value of `FibRgLw97`, as a signed count.
pub open spec fn fib_lw(s: Seq<u8>, k: int) -> i32 {
    le_i32(s, fib_lw_offset(s) + 4 * k)
}

/// Story lengths read from `ccpText`..`ccpHdrTxbx` (long words 3, 4, 5, 7, 8, 9, 10).
pub open spec fn fib_story_lengths(s: Seq<u8>) -> StoryLengths {
    StoryLengths {
        main: fib_lw(s, 3) as u32,
        footnotes: fib_lw(s, 4) as u32,
        headers: fib_lw(s, 5) as u32,
        comments: fib_lw(s, 7) as u32,
        endnotes: fib_lw(s, 8) as u32,
        textboxes: fib_lw(s, 9) as u32,
        header_textboxes: fib_lw(s, 10) as u32,
    }
}

/// Whether some story count is negative.
pub open spec fn fib_negative_count(s: Seq<u8>) -> bool {
    fib_lw(s, 3) < 0 || fib_lw(s, 4) < 0 || fib_lw(s, 5) < 0 || fib_lw(s, 7) < 0 || fib_lw(s, 8)
        < 0 || fib_lw(s, 9) < 0 || fib_lw(s, 10) < 0
}

/// The `k`-th offset/length pair of `FibRgFcLcb`.
pub open spec fn fib_pair(s: Seq<u8>, k: int) -> FcLcb {
    FcLcb {
        offset: le_u32(s, fib_pairs_offset(s) + 8 * k),
        length: le_u32(s, fib_pairs_offset(s) + 8 * k + 4),
    }
}

/// The effective version: `nFibNew` when `cswNew` is non-zero.
pub open spec fn fib_effective_version(s: Seq<u8>) -> u16 {
    if fib_csw_new(s) == 0 {
        le_u16(s, 2)
    } else {
        le_u16(s, fib_csw_new_offset(s) + 2)
    }
}

/// Word 97, 2000, 2002, 2003 and 2007 revisions.
pub open spec fn supported_version(v: u16) -> bool {
    v == 0x00C1 || v == 0x00D9 || v == 0x0101 || v == 0x010C || v == 0x0112
}

/// The first check that `Fib::parse` fails on stream bytes `s`, if any.
pub open spec fn fib_failure(s: Seq<u8>, limits: DocLimits) -> Option<ErrorKind> {
    if s.len() < 32 {
        Some(ErrorKind::InvalidFib)
    } else if le_u16(s, 0) == WORD_6_IDENT {
        Some(ErrorKind::UnsupportedVersion)
    } else if le_u16(s, 0) != WORD_BINARY_IDENT {
        Some(ErrorKind::InvalidFib)
    } else if le_u16(s, 10) & 0x100 != 0 {
        Some(ErrorKind::PasswordProtected)
    } else if fib_cslw_offset(s) + 2 > s.len() {
        Some(ErrorKind::OutOfBounds)
    } else if fib_cslw(s) < 11 {
        Some(ErrorKind::InvalidFib)
    } else if fib_pair_count_offset(s) > s.len() {
        Some(ErrorKind::OutOfBounds)
    } else if fib_negative_count(s) || fib_story_lengths(s).spec_total() > u32::MAX {
        Some(ErrorKind::InvalidFib)
    } else if fib_story_lengths(s).spec_total() > limits.max_characters {
        Some(ErrorKind::ResourceLimit)
    } else if fib_pairs_offset(s) > s.len() {
        Some(ErrorKind::OutOfBounds)
    } else if fib_pair_count(s) > limits.max_fib_pairs {
        Some(ErrorKind::ResourceLimit)
    } else if fib_csw_new_offset(s) > s.len() {
        Some(ErrorKind::OutOfBounds)
    } else if fib_pair_count(s) <= INDEX_CLX {
        Some(ErrorKind::InvalidFib)
    } else if fib_end(s) > s.len() {
        Some(ErrorKind::OutOfBounds)
    } else if !supported_version(fib_effective_version(s)) {
        Some(ErrorKind::UnsupportedVersion)
    } else {
        None
    }
}

impl Fib {
    /// Whether this FIB holds exactly the values stored in stream bytes `s`.
    pub open spec fn decoded_from(self, s: Seq<u8>) -> bool {
        let flags = le_u16(s, 10);
        &&& self.base.version == le_u16(s, 2)
        &&& self.base.language_id == le_u16(s, 6)
        &&& self.base.use_table1 == (flags & 0x200 != 0)
        &&& self.base.has_pictures == (flags & 0x8 != 0)
        &&& self.base.is_complex == (flags & 0x4 != 0)
        &&& self.effective_version == fib_effective_version(s)
        &&& self.word_document_length == le_u32(s, fib_lw_offset(s))
        &&& self.stories == fib_story_lengths(s)
        &&& self.locations@.len() == fib_pair_count(s)
        &&& forall|k: int|
            0 <= k < fib_pair_count(s) ==> #[trigger] self.locations@[k] == fib_pair(s, k)
        &&& self.byte_length == fib_end(s)
    }

    /// Parse the variable-length FIB using the normative count fields.
    #[verifier::rlimit(50)]
    pub fn parse(data: &[u8], limits: DocLimits) -> (res: Result<Self>)
        ensures
            err_kind(res) == fib_failure(data@, limits),
            res matches Ok(fib) ==> fib.decoded_from(data@),
            fib_failure(data@, limits) == Some(ErrorKind::ResourceLimit) ==> res == Err::<Fib, DocError>(
                if fib_story_lengths(data@).spec_total() > limits.max_characters {
                    DocError::ResourceLimit {
                        resource: "character",
                        actual: fib_story_lengths(data@).spec_total() as u64,
                        limit: limits.max_characters as u64,
                    }
                } else {
                    DocError::ResourceLimit {
                        resource: "FIB location-pair",
                        actual: fib_pair_count(data@) as u64,
                        limit: limits.max_fib_pairs as u64,
                    }
                },
            ),
            fib_failure(data@, limits) == Some(ErrorKind::UnsupportedVersion) ==> res == Err::<Fib, DocError>(
                DocError::UnsupportedVersion(
                    if le_u16(data@, 0) == WORD_6_IDENT {
                        le_u16(data@, 2)
                    } else {
                        fib_effective_version(data@)
                    },
                ),
            ),
    {
        let ghost s = data@;
        if data.len() < 32 {
            let mut text = message("WordDocument stream has ");
            crate::text::append_decimal(&mut text, data.len() as u64);
            crate::text::append_str(&mut text, " bytes; FibBase needs 32");
            return Err(DocError::InvalidFib(text));
        }
        let ident = read_u16_le(data, 0);
        if ident == WORD_6_IDENT {
            return Err(DocError::UnsupportedVersion(read_u16_le(data, 2)));
        }
        if ident != WORD_BINARY_IDENT {
            let mut text = message("unexpected wIdent 0x");
            crate::error::append_hex4(&mut text, ident);
            return Err(DocError::InvalidFib(text));
        }
        let version = read_u16_le(data, 2);
        let language_id = read_u16_le(data, 6);
        let flags = read_u16_le(data, 10);
        if flags & 0x100 != 0 {
            return Err(DocError::PasswordProtected);
        }

        let len = data.len();
        if len < 34 {
            return Err(fib_out_of_bounds(32, 34, len));
        }
        let csw = read_u16_le(data, 32) as usize;
        let cslw_offset = 34 + 2 * csw;
        if cslw_offset + 2 > len {
            return Err(fib_out_of_bounds(cslw_offset, cslw_offset + 2, len));
        }
        let cslw = read_u16_le(data, cslw_offset) as usize;
        if cslw < 11 {
            let mut text = message("FibRgLw has ");
            crate::text::append_decimal(&mut text, cslw as u64);
            crate::text::append_str(&mut text, " values; at least 11 are required");
            return Err(DocError::InvalidFib(text));
        }
        let lw_offset = cslw_offset + 2;
        let pair_count_offset = lw_offset + 4 * cslw;
        if pair_count_offset > len {
            return Err(fib_out_of_bounds(lw_offset, pair_count_offset, len));
        }
        let mut lw = ByteCursor::new(&data[lw_offset..pair_count_offset], "FibRgLw");
        let ghost lws = data@.subrange(lw_offset as int, pair_count_offset as int);
        assert(forall|k: int| 0 <= k < 11 ==> le_i32(lws, 4 * k) == #[trigger] fib_lw(s, k)) by {
            assert forall|k: int| 0 <= k < 11 implies le_i32(lws, 4 * k) == #[trigger] fib_lw(
                s,
                k,
            ) by {
                assert(lws[4 * k] == s[lw_offset + 4 * k]);
                assert(lws[4 * k + 1] == s[lw_offset + 4 * k + 1]);
                assert(lws[4 * k + 2] == s[lw_offset + 4 * k + 2]);
                assert(lws[4 * k + 3] == s[lw_offset + 4 * k + 3]);
            }
        }
        let word_document_length = lw.read_u32()?;
        assert(lws[0] == s[lw_offset as int]);
        assert(lws[1] == s[lw_offset + 1]);
        assert(lws[2] == s[lw_offset + 2]);
        assert(lws[3] == s[lw_offset + 3]);
        lw.skip(8)?;
        let main = read_non_negative_count(&mut lw)?;
        let footnotes = read_non_negative_count(&mut lw)?;
        let headers = read_non_negative_count(&mut lw)?;
        lw.skip(4)?;
        let comments = read_non_negative_count(&mut lw)?;
        let endnotes = read_non_negative_count(&mut lw)?;
        let textboxes = read_non_negative_count(&mut lw)?;
        let header_textboxes = read_non_negative_count(&mut lw)?;
        let stories = StoryLengths {
            main,
            footnotes,
            headers,
            comments,
            endnotes,
            textboxes,
            header_textboxes,
        };
        assert(stories == fib_story_lengths(s));
        let total_characters = stories.total()?;
        if total_characters > limits.max_characters {
            return Err(
                DocError::ResourceLimit {
                    resource: "character",
                    actual: total_characters as u64,
                    limit: limits.max_characters as u64,
                },
            );
        }

        if pair_count_offset + 2 > len {
            return Err(fib_out_of_bounds(pair_count_offset, pair_count_offset + 2, len));
        }
        let pair_count = read_u16_le(data, pair_count_offset) as usize;
        if pair_count > limits.max_fib_pairs {
            return Err(
                DocError::ResourceLimit {
                    resource: "FIB location-pair",
                    actual: pair_count as u64,
                    limit: limits.max_fib_pairs as u64,
                },
            );
        }
        let pairs_offset = pair_count_offset + 2;
        let csw_new_offset = pairs_offset + 8 * pair_count;
        if csw_new_offset > len {
            return Err(fib_out_of_bounds(pairs_offset, csw_new_offset, len));
        }
        let mut pairs: Vec<FcLcb> = Vec::new();
        let mut k: usize = 0;
        while k < pair_count
            invariant
                s == data@,
                0 <= k <= pair_count,
                pair_count == fib_pair_count(s),
                pairs_offset == fib_pairs_offset(s),
                csw_new_offset == pairs_offset + 8 * pair_count,
                csw_new_offset <= data@.len(),
                pairs@.len() == k,
                forall|j: int| 0 <= j < k ==> #[trigger] pairs@[j] == fib_pair(s, j),
            decreases pair_count - k,
        {
            let at = pairs_offset + 8 * k;
            let offset = crate::binary::read_u32_le(data, at);
            let length = crate::binary::read_u32_le(data, at + 4);
            pairs.push(FcLcb { offset, length });
            k = k + 1;
        }
        if pair_count <= INDEX_CLX {
            let mut text = message("FibRgFcLcb has ");
            crate::text::append_decimal(&mut text, pair_count as u64);
            crate::text::append_str(&mut text, " pairs; CLX pair 33 is absent");
            return Err(DocError::InvalidFib(text));
        }

        if csw_new_offset + 2 > len {
            return Err(fib_out_of_bounds(csw_new_offset, csw_new_offset + 2, len));
        }
        let csw_new = read_u16_le(data, csw_new_offset) as usize;
        let end = csw_new_offset + 2 + 2 * csw_new;
        if end > len {
            return Err(fib_out_of_bounds(csw_new_offset + 2, end, len));
        }
        let effective_version = if csw_new == 0 {
            version
        } else {
            read_u16_le(data, csw_new_offset + 2)
        };
        ensure_supported_version(effective_version)?;

        Ok(
            Self {
                base: FibBase {
                    version,
                    language_id,
                    use_table1: flags & 0x200 != 0,
                    has_pictures: flags & 0x8 != 0,
                    is_complex: flags & 0x4 != 0,
                },
                effective_version,
                word_document_length,
                stories,
                locations: FibLocations { pairs },
                byte_length: end,
            },
        )
    }
}

fn fib_out_of_bounds(offset: usize, end: usize, available: usize) -> (res: DocError)
    ensures
        res.kind() == ErrorKind::OutOfBounds,
{
    DocError::OutOfBounds { structure: "FIB", offset, end, available }
}

/// Reads a story count that must not be negative.
fn read_non_negative_count(cursor: &mut ByteCursor<'_>) -> (res: Result<u32>)
    requires
        old(cursor).wf(),
        old(cursor).pos() + 4 <= old(cursor).bytes().len(),
    ensures
        final(cursor).wf(),
        final(cursor).bytes() == old(cursor).bytes(),
        final(cursor).pos() == old(cursor).pos() + 4,
        res is Ok <==> le_i32(old(cursor).bytes(), old(cursor).pos()) >= 0,
        res is Ok ==> res->Ok_0 == le_i32(old(cursor).bytes(), old(cursor).pos()) as u32,
        res is Err ==> res->Err_0.kind() == ErrorKind::InvalidFib,
{
    let value = cursor.read_i32()?;
    if value < 0 {
        Err(DocError::InvalidFib(message("story count is negative")))
    } else {
        Ok(value as u32)
    }
}

/// Accepts only the Word 97–2007 binary revisions.
pub fn ensure_supported_version(version: u16) -> (res: Result<()>)
    ensures
        res is Ok <==> supported_version(version),
        res is Err ==> res->Err_0 == DocError::UnsupportedVersion(version),
{
    if version == 0x00C1 || version == 0x00D9 || version == 0x0101 || version == 0x010C || version
        == 0x0112 {
        Ok(())
    } else {
        Err(DocError::UnsupportedVersion(version))
    }
}

} // verus!

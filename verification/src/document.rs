//! High-level FIB/CLX document assembly from extracted streams.

use vstd::prelude::*;

use crate::binary::{checked_slice, le_u16, le_u32};
use crate::container::{CompoundFile, compound_has_stream, compound_opens, compound_stream, read_required_stream, stream_outcome};
use crate::error::{DocError, ErrorKind, Result, err_kind, first_failure, lemma_first_failure_persists, message};
use crate::fib::{
    Fib,
    INDEX_CLX,
    StoryLengths,
    fib_end,
    fib_failure,
    fib_lw_offset,
    fib_pair,
    fib_story_lengths,
};
use crate::limits::DocLimits;
use crate::piece_table::{
    DecodedText,
    PieceTable,
    bounds_checks,
    clx_pieces,
    decode_pieces,
    piece_table_failure,
};
use crate::text::utf16_lossy;

verus! {

/// Logical Word subdocument stored in the shared CP stream.
#[derive(Debug, Clone, Copy, PartialEq, Eq, Hash, Structural)]
pub enum StoryKind {
    /// Main document body.
    Main,
    /// Footnote bodies.
    Footnotes,
    /// Headers and footers.
    Headers,
    /// Comment bodies.
    Comments,
    /// Endnote bodies.
    Endnotes,
    /// Textboxes anchored in the main document.
    Textboxes,
    /// Textboxes anchored in headers.
    HeaderTextboxes,
}

/// One decoded story retaining its global source CP range.
#[derive(Debug, Clone, PartialEq, Eq)]
pub struct Story {
    /// Story kind.
    pub kind: StoryKind,
    /// Global source CP start.
    pub cp_start: u32,
    /// Global source CP end.
    pub cp_end: u32,
    /// Source-aligned decoded text.
    pub content: DecodedText,
}

/// Stories in normative global CP order.
pub open spec fn story_kind_at(i: int) -> StoryKind {
    if i == 0 {
        StoryKind::Main
    } else if i == 1 {
        StoryKind::Footnotes
    } else if i == 2 {
        StoryKind::Headers
    } else if i == 3 {
        StoryKind::Comments
    } else if i == 4 {
        StoryKind::Endnotes
    } else if i == 5 {
        StoryKind::Textboxes
    } else {
        StoryKind::HeaderTextboxes
    }
}

/// Declared length of story `i`.
pub open spec fn story_length_at(l: StoryLengths, i: int) -> u32 {
    if i == 0 {
        l.main
    } else if i == 1 {
        l.footnotes
    } else if i == 2 {
        l.headers
    } else if i == 3 {
        l.comments
    } else if i == 4 {
        l.endnotes
    } else if i == 5 {
        l.textboxes
    } else {
        l.header_textboxes
    }
}

/// First global CP of story `i`: the sum of the lengths before it.
pub open spec fn story_start_at(l: StoryLengths, i: int) -> int
    decreases i,
{
    if i <= 0 {
        0
    } else {
        story_start_at(l, i - 1) + story_length_at(l, i - 1)
    }
}

/// Name of the table stream that a FIB with `use_table1` selects.
pub open spec fn expected_table_name(use_table1: bool) -> Seq<char> {
    if use_table1 {
        seq!['1', 'T', 'a', 'b', 'l', 'e']
    } else {
        seq!['0', 'T', 'a', 'b', 'l', 'e']
    }
}

/// Decoding checks of the seven stories.
pub open spec fn story_checks(
    pieces: Seq<crate::piece_table::TextPiece>,
    cp_end: u32,
    word: Seq<u8>,
    l: StoryLengths,
) -> Seq<Option<ErrorKind>> {
    Seq::new(
        7,
        |i: int|
            match decode_pieces(
                pieces,
                cp_end,
                word,
                story_start_at(l, i) as u32,
                (story_start_at(l, i) + story_length_at(l, i)) as u32,
            ) {
                Err(e) => Some(e),
                Ok(_) => None,
            },
    )
}

/// The kind of the first failure of `from_streams`, if any.
pub open spec fn document_failure(
    word: Seq<u8>,
    table: Seq<u8>,
    data_len: Option<int>,
    name: Seq<char>,
    limits: DocLimits,
) -> Option<ErrorKind> {
    let cb_mac = le_u32(word, fib_lw_offset(word)) as int;
    let clx = fib_pair(word, INDEX_CLX as int);
    let stories = fib_story_lengths(word);
    let clx_bytes = table.subrange(clx.offset as int, clx.offset + clx.length);
    let pieces = clx_pieces(clx_bytes, limits);
    let cp_end = stories.spec_piece_table_end() as u32;
    if word.len() > limits.max_stream_bytes || table.len() > limits.max_stream_bytes || (data_len
        is Some && data_len.unwrap() > limits.max_stream_bytes) {
        Some(ErrorKind::StreamTooLarge)
    } else if fib_failure(word, limits) is Some {
        fib_failure(word, limits)
    } else if name != expected_table_name(le_u16(word, 10) & 0x200 != 0) {
        Some(ErrorKind::InvalidFib)
    } else if cb_mac < fib_end(word) || cb_mac > word.len() {
        Some(ErrorKind::OutOfBounds)
    } else if clx.length == 0 {
        Some(ErrorKind::InvalidFib)
    } else if clx.offset + clx.length > table.len() {
        Some(ErrorKind::OutOfBounds)
    } else if stories.spec_piece_table_end() > u32::MAX {
        Some(ErrorKind::InvalidFib)
    } else if piece_table_failure(clx_bytes, cp_end, limits) is Some {
        piece_table_failure(clx_bytes, cp_end, limits)
    } else if first_failure(bounds_checks(pieces, cb_mac), pieces.len() as int) is Some {
        first_failure(bounds_checks(pieces, cb_mac), pieces.len() as int)
    } else {
        first_failure(story_checks(pieces, cp_end, word, stories), 7)
    }
}

/// Length of an optional stream.
pub open spec fn optional_len(o: Option<Vec<u8>>) -> Option<int> {
    match o {
        Some(d) => Some(d@.len() as int),
        None => None,
    }
}

/// Contents of an optional stream.
pub open spec fn optional_view(o: Option<Vec<u8>>) -> Option<Seq<u8>> {
    match o {
        Some(d) => Some(d@),
        None => None,
    }
}

/// Name of the stream holding the FIB and the text.
pub open spec fn word_document_name() -> Seq<char> {
    seq!['W', 'o', 'r', 'd', 'D', 'o', 'c', 'u', 'm', 'e', 'n', 't']
}

/// Name of the optional picture stream.
pub open spec fn data_stream_name() -> Seq<char> {
    seq!['D', 'a', 't', 'a']
}

/// Why opening a DOC held in compound-file bytes `data` fails, if it does:
/// the input budget, the container, the `WordDocument` stream, its FIB, the
/// table stream the FIB selects, the optional `Data` stream, and then the
/// stream assembly, in that order.
pub open spec fn container_failure(data: Seq<u8>, limits: DocLimits) -> Option<ErrorKind> {
    if data.len() > limits.max_input_bytes {
        Some(ErrorKind::InputTooLarge)
    } else if !compound_opens(data) {
        Some(ErrorKind::CompoundFile)
    } else {
        match stream_outcome(data, word_document_name(), limits) {
            Err(e) => Some(e),
            Ok(word) => if fib_failure(word, limits) is Some {
                fib_failure(word, limits)
            } else {
                let name = expected_table_name(le_u16(word, 10) & 0x200 != 0);
                match stream_outcome(data, name, limits) {
                    Err(e) => Some(e),
                    Ok(table) => if compound_has_stream(data, data_stream_name()) {
                        match stream_outcome(data, data_stream_name(), limits) {
                            Err(e) => Some(e),
                            Ok(extra) => document_failure(word, table, Some(extra.len() as int), name, limits),
                        }
                    } else {
                        document_failure(word, table, None, name, limits)
                    },
                }
            },
        }
    }
}

/// Parsed Word 97–2003 binary document foundation.
#[derive(Debug)]
pub struct WordBinaryDocument {
    fib: Fib,
    piece_table: PieceTable,
    stories: Vec<Story>,
    word_document: Vec<u8>,
    table_stream: Vec<u8>,
    data_stream: Option<Vec<u8>>,
    table_stream_name: &'static str,
}

impl WordBinaryDocument {
    /// The parsed FIB.
    pub closed spec fn spec_fib(&self) -> Fib {
        self.fib
    }

    /// The validated piece table.
    pub closed spec fn spec_piece_table(&self) -> PieceTable {
        self.piece_table
    }

    /// The decoded stories.
    pub closed spec fn spec_stories(&self) -> Seq<Story> {
        self.stories@
    }

    /// The whole `WordDocument` stream.
    pub closed spec fn spec_word(&self) -> Seq<u8> {
        self.word_document@
    }

    /// The selected table stream.
    pub closed spec fn spec_table(&self) -> Seq<u8> {
        self.table_stream@
    }

    /// The optional `Data` stream.
    pub closed spec fn spec_data(&self) -> Option<Seq<u8>> {
        optional_view(self.data_stream)
    }

    /// The table stream's name.
    pub closed spec fn spec_table_stream_name(&self) -> &'static str {
        self.table_stream_name
    }

    /// What `decode_range(a, b)` yields.
    pub open spec fn spec_decode(&self, a: u32, b: u32) -> crate::error::Outcome<Seq<u16>> {
        self.spec_piece_table().spec_decode(self.spec_word(), a, b)
    }

    /// Whether `stories` are the seven stories of lengths `l`, decoded through
    /// `decode`.
    pub open spec fn stories_decoded(&self) -> bool {
        let l = self.spec_fib().stories;
        &&& self.spec_stories().len() == 7
        &&& forall|i: int|
            0 <= i < 7 ==> {
                let st = #[trigger] self.spec_stories()[i];
                &&& st.kind == story_kind_at(i)
                &&& st.cp_start == story_start_at(l, i)
                &&& st.cp_end == story_start_at(l, i) + story_length_at(l, i)
                &&& st.content.cp_start == st.cp_start
                &&& st.content.cp_end == st.cp_end
                &&& self.spec_decode(st.cp_start, st.cp_end) == Ok::<Seq<u16>, ErrorKind>(
                    st.content.utf16@,
                )
                &&& st.content.text@ == utf16_lossy(st.content.utf16@)
            }
    }

    /// The document's internal consistency.
    #[verifier::type_invariant]
    closed spec fn inv(self) -> bool {
        &&& self.piece_table.wf()
        &&& self.fib.word_document_length <= self.word_document@.len()
        &&& self.fib.stories.spec_total() <= u32::MAX
        &&& self.stories_decoded()
    }

    /// Parse DOC bytes from an OLE/CFB container using default limits.
    pub fn from_bytes(data: &[u8]) -> (res: Result<Self>)
        ensures
            err_kind(res) == container_failure(data@, DocLimits::spec_default()),
            res matches Ok(doc) ==> doc.opened_from(data@, DocLimits::spec_default()),
    {
        Self::from_bytes_with_limits(data, DocLimits::default())
    }

    /// Parse DOC bytes from an OLE/CFB container using explicit limits.
    #[verifier::rlimit(60)]
    #[verifier::spinoff_prover]
    pub fn from_bytes_with_limits(data: &[u8], limits: DocLimits) -> (res: Result<Self>)
        ensures
            err_kind(res) == container_failure(data@, limits),
            res matches Ok(doc) ==> doc.opened_from(data@, limits),
    {
        if data.len() > limits.max_input_bytes {
            return Err(DocError::InputTooLarge { actual: data.len(), limit: limits.max_input_bytes });
        }
        let mut file = CompoundFile::open(data)?;
        proof {
            reveal_strlit("WordDocument");
            reveal_strlit("1Table");
            reveal_strlit("0Table");
            reveal_strlit("Data");
        }
        assert("WordDocument"@ =~= word_document_name());
        assert("Data"@ =~= data_stream_name());
        let word_document = read_required_stream(&mut file, "WordDocument", limits)?;
        let fib = Fib::parse(word_document.as_slice(), limits)?;
        let table_stream_name = if fib.base.use_table1 {
            "1Table"
        } else {
            "0Table"
        };
        assert(table_stream_name@ =~= expected_table_name(fib.base.use_table1));
        let table_stream = read_required_stream(&mut file, table_stream_name, limits)?;
        let data_stream = if file.has_stream("Data") {
            Some(read_required_stream(&mut file, "Data", limits)?)
        } else {
            None
        };
        Self::from_streams(word_document, table_stream, data_stream, table_stream_name, limits)
    }

    /// Whether this document holds the streams that compound file `data`
    /// stores under `limits`, assembled by [`Self::from_streams`].
    pub open spec fn opened_from(&self, data: Seq<u8>, limits: DocLimits) -> bool {
        let word = compound_stream(data, word_document_name())->Some_0;
        let name = expected_table_name(le_u16(word, 10) & 0x200 != 0);
        &&& self.spec_word() == word
        &&& self.spec_table() == compound_stream(data, name)->Some_0
        &&& self.spec_table_stream_name()@ == name
        &&& self.spec_data() == (if compound_has_stream(data, data_stream_name()) {
            compound_stream(data, data_stream_name())
        } else {
            None
        })
        &&& self.spec_fib().decoded_from(word)
        &&& self.stories_decoded()
    }

    /// Assemble a document from already extracted CFB streams.
    #[verifier::rlimit(80)]
    #[verifier::spinoff_prover]
    pub fn from_streams(
        word_document: Vec<u8>,
        table_stream: Vec<u8>,
        data_stream: Option<Vec<u8>>,
        table_stream_name: &'static str,
        limits: DocLimits,
    ) -> (res: Result<Self>)
        ensures
            err_kind(res) == document_failure(
                word_document@,
                table_stream@,
                optional_len(data_stream),
                table_stream_name@,
                limits,
            ),
            res matches Ok(doc) ==> {
                let clx = fib_pair(word_document@, INDEX_CLX as int);
                &&& doc.spec_fib().decoded_from(word_document@)
                &&& doc.spec_word() == word_document@
                &&& doc.spec_table() == table_stream@
                &&& doc.spec_data() == optional_view(data_stream)
                &&& doc.spec_table_stream_name() == table_stream_name
                &&& doc.spec_piece_table().parsed_from(
                    table_stream@.subrange(clx.offset as int, clx.offset + clx.length),
                    limits,
                )
                &&& doc.stories_decoded()
            },
    {
        let ghost word = word_document@;
        let ghost table = table_stream@;
        enforce_stream_limit("WordDocument", word_document.len(), limits)?;
        enforce_stream_limit(table_stream_name, table_stream.len(), limits)?;
        match &data_stream {
            Some(data) => enforce_stream_limit("Data", data.len(), limits)?,
            None => {},
        }
        let fib = Fib::parse(word_document.as_slice(), limits)?;
        let expected = if fib.base.use_table1 {
            "1Table"
        } else {
            "0Table"
        };
        proof {
            reveal_strlit("1Table");
            reveal_strlit("0Table");
        }
        assert(expected@ =~= expected_table_name(fib.base.use_table1));
        if !str_equal(table_stream_name, expected) {
            return Err(DocError::InvalidFib(message("FIB selects another table stream")));
        }
        let meaningful_word_bytes = fib.word_document_length as usize;
        if meaningful_word_bytes < fib.byte_length || meaningful_word_bytes > word_document.len() {
            return Err(
                DocError::OutOfBounds {
                    structure: "FibRgLw.cbMac",
                    offset: 0,
                    end: meaningful_word_bytes,
                    available: word_document.len(),
                },
            );
        }
        assert(fib.locations@[INDEX_CLX as int] == fib_pair(word, INDEX_CLX as int));
        let clx_location = match fib.locations.clx() {
            Some(location) => location,
            None => {
                return Err(DocError::InvalidFib(message("CLX location is empty")));
            },
        };
        if clx_location.is_empty() {
            return Err(DocError::InvalidFib(message("CLX location is empty")));
        }
        let clx = checked_slice(
            table_stream.as_slice(),
            clx_location.offset,
            clx_location.length,
            "CLX",
        )?;
        let expected_end = fib.stories.piece_table_end()?;
        let piece_table = PieceTable::parse(clx, expected_end, limits)?;
        assert(piece_table.spec_pieces() == clx_pieces(clx@, limits));
        piece_table.validate_word_bounds(meaningful_word_bytes)?;
        let stories = decode_stories(&fib, &piece_table, word_document.as_slice())?;
        let doc = Self {
            fib,
            piece_table,
            stories,
            word_document,
            table_stream,
            data_stream,
            table_stream_name,
        };
        assert(doc.stories_decoded());
        Ok(doc)
    }

    /// Parsed FIB and all retained structural locations.
    pub fn fib(&self) -> (res: &Fib)
        ensures
            *res == self.spec_fib(),
    {
        &self.fib
    }

    /// Validated CLX piece table.
    pub fn piece_table(&self) -> (res: &PieceTable)
        ensures
            *res == self.spec_piece_table(),
            res.wf(),
    {
        proof {
            use_type_invariant(self);
        }
        &self.piece_table
    }

    /// Stories in normative global CP order.
    pub fn stories(&self) -> (res: &[Story])
        ensures
            res@ == self.spec_stories(),
            self.stories_decoded(),
    {
        proof {
            use_type_invariant(self);
        }
        self.stories.as_slice()
    }

    /// Find one story by kind.
    pub fn story(&self, kind: StoryKind) -> (res: Option<&Story>)
        ensures
            self.stories_decoded(),
            res matches Some(st) ==> exists|i: int|
                0 <= i < 7 && story_kind_at(i) == kind && *st == #[trigger] self.spec_stories()[i],
            res is None ==> forall|i: int| 0 <= i < 7 ==> story_kind_at(i) != kind,
    {
        proof {
            use_type_invariant(self);
        }
        let mut i: usize = 0;
        while i < self.stories.len()
            invariant
                self.stories_decoded(),
                i <= 7,
                forall|j: int| 0 <= j < i ==> story_kind_at(j) != kind,
            decreases 7 - i,
        {
            if self.stories[i].kind == kind {
                assert(self.spec_stories()[i as int].kind == story_kind_at(i as int));
                return Some(&self.stories[i]);
            }
            i = i + 1;
        }
        None
    }

    /// Decode any global source CP range.
    pub fn decode_range(&self, cp_start: u32, cp_end: u32) -> (res: Result<DecodedText>)
        ensures
            match self.spec_decode(cp_start, cp_end) {
                Ok(units) => res matches Ok(d) && d.cp_start == cp_start && d.cp_end == cp_end
                    && d.utf16@ == units && d.text@ == utf16_lossy(units),
                Err(e) => res is Err && res->Err_0.kind() == e,
            },
    {
        proof {
            use_type_invariant(self);
        }
        self.piece_table.decode_range(self.word_document.as_slice(), cp_start, cp_end)
    }

    /// Parses and resolves section header/footer stories.
    pub fn header_footers(&self, limits: DocLimits) -> (res: Result<crate::headers::HeaderFooterTable>)
        ensures
            crate::headers::header_footer_table_result(*self, limits, res),
    {
        crate::headers::HeaderFooterTable::parse(self, limits)
    }

    /// Parses source-anchored inline pictures without scanning mixed Data bytes.
    pub fn media(&self, limits: DocLimits) -> (res: Result<crate::media::MediaCollection>)
        ensures
            crate::media::media_collection_result(*self, limits, res),
    {
        crate::media::MediaCollection::parse(self, limits)
    }

    /// Parses validated list definitions and instances.
    pub fn lists(&self, limits: DocLimits) -> (res: Result<crate::lists::ListCollection>)
        ensures
            crate::lists::list_collection_result(*self, limits, res),
    {
        crate::lists::ListCollection::parse(self, limits)
    }

    /// Reconstructs source-proven nested main-story tables.
    pub fn tables(&self, limits: DocLimits) -> (res: Result<crate::tables::TableCollection>)
        ensures
            match crate::formatting::logical_outcome(
                self.spec_fib(),
                self.spec_word().subrange(0, self.spec_fib().word_document_length as int),
                self.spec_table(),
                limits,
                self.spec_piece_table().spec_pieces(),
            ) {
                Err(e) => res is Err && res->Err_0.kind() == e,
                Ok(l) => if crate::formatting::runs_resolve(l, self.spec_piece_table()) {
                    exists|idx: crate::formatting::SemanticFormattingIndex|
                        crate::formatting::semantic_of(
                            Ok::<crate::formatting::SemanticFormattingIndex, DocError>(idx),
                            l,
                            self.spec_piece_table(),
                        ) && crate::tables::table_outcome(self.spec_stories()[0], idx, limits, res)
                } else {
                    res is Err && (res->Err_0.kind() == ErrorKind::InvalidPieceTable || res->Err_0.kind()
                        == ErrorKind::InvalidFormatting)
                },
            },
    {
        let story = match self.story(StoryKind::Main) {
            Some(s) => s,
            None => {
                assert(story_kind_at(0) == StoryKind::Main);
                return Err(DocError::InvalidTable(message("main story is absent")));
            },
        };
        proof {
            let i = choose|i: int|
                0 <= i < 7 && story_kind_at(i) == StoryKind::Main && *story == #[trigger] self.spec_stories()[i];
            assert(i == 0);
        }
        let formatting = self.semantic_formatting(limits)?;
        let res = crate::tables::TableCollection::parse(story, &formatting, limits);
        proof {
            assert(crate::tables::table_outcome(self.spec_stories()[0], formatting, limits, res));
        }
        res
    }

    /// Parses source font names and substitution metadata.
    pub fn fonts(&self, limits: DocLimits) -> (res: Result<crate::fonts::FontTable>)
        ensures
            crate::fonts::font_table_result(self.spec_fib(), self.spec_table(), limits, res),
    {
        crate::fonts::FontTable::parse(&self.fib, self.table_stream.as_slice(), limits)
    }

    /// Parses main-document section ranges, raw SEPX properties, and geometry.
    pub fn sections(&self, limits: DocLimits) -> (res: Result<crate::sections::SectionTable>)
        ensures
            crate::sections::section_table_result(
                self.spec_fib(),
                self.spec_word().subrange(0, self.spec_fib().word_document_length as int),
                self.spec_table(),
                limits,
                res,
            ),
    {
        crate::sections::SectionTable::parse(&self.fib, self.word_document_stream(), self.table_stream.as_slice(), limits)
    }

    /// Parses direct paragraph and character formatting runs from BTE/FKP data.
    pub fn formatting_index(&self, limits: DocLimits) -> (res: Result<crate::formatting::FormattingIndex>)
        ensures
            crate::formatting::formatting_index_result(
                self.spec_fib(),
                self.spec_word().subrange(0, self.spec_fib().word_document_length as int),
                self.spec_table(),
                limits,
                res,
            ),
    {
        crate::formatting::FormattingIndex::parse(&self.fib, self.word_document_stream(), self.table_stream.as_slice(), limits)
    }

    /// Parses direct formatting and converts its physical FC ranges to CP ranges.
    pub fn logical_formatting(&self, limits: DocLimits) -> (res: Result<crate::formatting::LogicalFormattingIndex>)
        ensures
            match crate::formatting::logical_outcome(
                self.spec_fib(),
                self.spec_word().subrange(0, self.spec_fib().word_document_length as int),
                self.spec_table(),
                limits,
                self.spec_piece_table().spec_pieces(),
            ) {
                Err(e) => res is Err && res->Err_0.kind() == e,
                Ok(l) => res matches Ok(x) && crate::formatting::lruns_spec(x.character_runs@) == l.0
                    && crate::formatting::lruns_spec(x.paragraph_runs@) == l.1,
            },
    {
        proof {
            use_type_invariant(self);
        }
        let index = self.formatting_index(limits)?;
        index.to_logical(&self.piece_table)
    }

    /// Parses, maps, and applies direct FKP and piece-level properties.
    pub fn semantic_formatting(&self, limits: DocLimits) -> (res: Result<crate::formatting::SemanticFormattingIndex>)
        ensures
            match crate::formatting::logical_outcome(
                self.spec_fib(),
                self.spec_word().subrange(0, self.spec_fib().word_document_length as int),
                self.spec_table(),
                limits,
                self.spec_piece_table().spec_pieces(),
            ) {
                Err(e) => res is Err && res->Err_0.kind() == e,
                Ok(l) => crate::formatting::semantic_of(res, l, self.spec_piece_table()),
            },
    {
        let logical = self.logical_formatting(limits)?;
        let res = logical.resolve_properties(&self.piece_table);
        proof {
            let l = crate::formatting::logical_outcome(
                self.spec_fib(),
                self.spec_word().subrange(0, self.spec_fib().word_document_length as int),
                self.spec_table(),
                limits,
                self.spec_piece_table().spec_pieces(),
            )->Ok_0;
            assert forall|k: int| 0 <= k < l.0.len() implies l.0[k] == crate::formatting::lrun_spec(
                #[trigger] logical.character_runs@[k],
            ) by {}
            assert forall|k: int| 0 <= k < l.1.len() implies l.1[k] == crate::formatting::lrun_spec(
                #[trigger] logical.paragraph_runs@[k],
            ) by {}
            assert(crate::formatting::index_resolves(logical, self.spec_piece_table())
                == crate::formatting::runs_resolve(l, self.spec_piece_table())) by {
                if crate::formatting::runs_resolve(l, self.spec_piece_table()) {
                    assert forall|k: int| 0 <= k < logical.character_runs@.len() implies #[trigger] crate::formatting::character_run_resolves(
                        crate::formatting::lrun_spec(logical.character_runs@[k]),
                        self.spec_piece_table(),
                    ) by {
                        assert(crate::formatting::character_run_resolves(l.0[k], self.spec_piece_table()));
                    }
                    assert forall|k: int| 0 <= k < logical.paragraph_runs@.len() implies #[trigger] crate::formatting::paragraph_run_resolves(
                        crate::formatting::lrun_spec(logical.paragraph_runs@[k]),
                        self.spec_piece_table(),
                    ) by {
                        assert(crate::formatting::paragraph_run_resolves(l.1[k], self.spec_piece_table()));
                    }
                }
                if crate::formatting::index_resolves(logical, self.spec_piece_table()) {
                    assert forall|k: int| 0 <= k < l.0.len() implies #[trigger] crate::formatting::character_run_resolves(
                        l.0[k],
                        self.spec_piece_table(),
                    ) by {
                        assert(crate::formatting::character_run_resolves(
                            crate::formatting::lrun_spec(logical.character_runs@[k]),
                            self.spec_piece_table(),
                        ));
                    }
                    assert forall|k: int| 0 <= k < l.1.len() implies #[trigger] crate::formatting::paragraph_run_resolves(
                        l.1[k],
                        self.spec_piece_table(),
                    ) by {
                        assert(crate::formatting::paragraph_run_resolves(
                            crate::formatting::lrun_spec(logical.paragraph_runs@[k]),
                            self.spec_piece_table(),
                        ));
                    }
                }
            }
        }
        res
    }

    /// Parses the document stylesheet and validates all inheritance links.
    pub fn styles(&self, limits: DocLimits) -> (res: Result<crate::styles::StyleSheet>)
        ensures
            crate::styles::stsh_result(self.spec_fib(), self.spec_table(), limits, res),
    {
        crate::styles::StyleSheet::parse(&self.fib, self.table_stream.as_slice(), limits)
    }

    /// Produces style-aware runs with direct formatting retained for auditing.
    pub fn styled_formatting(&self, limits: DocLimits) -> (res: Result<crate::formatting::StyledFormattingIndex>)
        ensures
            match crate::formatting::logical_outcome(
                self.spec_fib(),
                self.spec_word().subrange(0, self.spec_fib().word_document_length as int),
                self.spec_table(),
                limits,
                self.spec_piece_table().spec_pieces(),
            ) {
                Err(e) => res is Err && res->Err_0.kind() == e,
                Ok(l) => !crate::formatting::runs_resolve(l, self.spec_piece_table()) ==> res is Err && (
                res->Err_0.kind() == ErrorKind::InvalidPieceTable || res->Err_0.kind() == ErrorKind::InvalidFormatting),
            },
            res matches Ok(r) ==> {
                &&& crate::formatting::logical_outcome(
                    self.spec_fib(),
                    self.spec_word().subrange(0, self.spec_fib().word_document_length as int),
                    self.spec_table(),
                    limits,
                    self.spec_piece_table().spec_pieces(),
                ) matches Ok(l) && crate::formatting::semantic_of(
                    Ok::<crate::formatting::SemanticFormattingIndex, DocError>(r.direct),
                    l,
                    self.spec_piece_table(),
                )
                &&& exists|sheet: crate::styles::StyleSheet|
                    crate::styles::stsh_result(self.spec_fib(), self.spec_table(), limits, Ok(sheet))
                        && crate::formatting::styles_resolvable(r.direct, sheet)
                        && crate::formatting::styled_runs_ok(r.direct, sheet, r.paragraph_runs@, r.character_runs@)
            },
            res is Err ==> match crate::formatting::logical_outcome(
                self.spec_fib(),
                self.spec_word().subrange(0, self.spec_fib().word_document_length as int),
                self.spec_table(),
                limits,
                self.spec_piece_table().spec_pieces(),
            ) {
                Err(_) => true,
                Ok(l) => {
                    ||| !crate::formatting::runs_resolve(l, self.spec_piece_table())
                    ||| exists|e: DocError| crate::styles::stsh_result(self.spec_fib(), self.spec_table(), limits, Err(e))
                    ||| exists|idx: crate::formatting::SemanticFormattingIndex, sheet: crate::styles::StyleSheet|
                        crate::formatting::semantic_of(Ok::<crate::formatting::SemanticFormattingIndex, DocError>(idx), l, self.spec_piece_table())
                            && crate::styles::stsh_result(self.spec_fib(), self.spec_table(), limits, Ok(sheet))
                            && !crate::formatting::styles_resolvable(idx, sheet)
                },
            },
    {
        let semantic = self.semantic_formatting(limits)?;
        let ghost lo = crate::formatting::logical_outcome(
            self.spec_fib(),
            self.spec_word().subrange(0, self.spec_fib().word_document_length as int),
            self.spec_table(),
            limits,
            self.spec_piece_table().spec_pieces(),
        );
        proof {
            assert(lo is Ok);
            assert(crate::formatting::semantic_of(Ok::<crate::formatting::SemanticFormattingIndex, DocError>(semantic), lo->Ok_0, self.spec_piece_table()));
        }
        let sheet = match self.styles(limits) {
            Ok(sheet) => sheet,
            Err(e) => {
                proof {
                    assert(crate::styles::stsh_result(self.spec_fib(), self.spec_table(), limits, Err(e)));
                }
                return Err(e);
            },
        };
        let (paragraph_runs, character_runs) = match semantic.style_runs(&sheet) {
            Ok(runs) => runs,
            Err(e) => {
                proof {
                    assert(crate::styles::stsh_result(self.spec_fib(), self.spec_table(), limits, Ok(sheet)));
                    assert(!crate::formatting::styles_resolvable(semantic, sheet));
                }
                return Err(e);
            },
        };
        let result = crate::formatting::StyledFormattingIndex { direct: semantic, paragraph_runs, character_runs };
        proof {
            assert(crate::styles::stsh_result(self.spec_fib(), self.spec_table(), limits, Ok(sheet)));
            assert(crate::formatting::styled_runs_ok(result.direct, sheet, result.paragraph_runs@, result.character_runs@));
            assert(exists|s: crate::styles::StyleSheet|
                crate::styles::stsh_result(self.spec_fib(), self.spec_table(), limits, Ok(s))
                    && crate::formatting::styled_runs_ok(result.direct, s, result.paragraph_runs@, result.character_runs@));
        }
        Ok(result)
    }

    /// Parses source-backed footnote and endnote references and body ranges.
    pub fn notes(&self, limits: DocLimits) -> (res: Result<crate::notes::NoteCollection>)
        ensures
            crate::notes::note_collection_result(*self, limits, res),
    {
        crate::notes::NoteCollection::parse(self, limits)
    }

    /// Parses source-backed comment references, metadata, and body ranges.
    pub fn comments(&self, limits: DocLimits) -> (res: Result<crate::comments::CommentCollection>)
        ensures
            crate::comments::comment_collection_result(*self, limits, res),
            res matches Ok(c) ==> crate::comments::sorted_by_reference(c.spec_comments()),
    {
        crate::comments::CommentCollection::parse(self, limits)
    }

    /// Parses nested field character PLCs for every Word story.
    pub fn fields(&self, limits: DocLimits) -> (res: Result<crate::fields::FieldCollection>)
        ensures
            crate::fields::field_collection_result(*self, limits, res),
    {
        crate::fields::FieldCollection::parse(self, limits)
    }

    /// Meaningful `WordDocument` bytes, including formatting pages.
    pub fn word_document_stream(&self) -> (res: &[u8])
        ensures
            res@ == self.spec_word().subrange(0, self.spec_fib().word_document_length as int),
    {
        proof {
            use_type_invariant(self);
        }
        let meaningful = self.fib.word_document_length as usize;
        &self.word_document.as_slice()[0..meaningful]
    }

    /// Selected `0Table` or `1Table` stream.
    pub fn table_stream(&self) -> (res: &[u8])
        ensures
            res@ == self.spec_table(),
    {
        self.table_stream.as_slice()
    }

    /// Optional Data stream used by pictures and embedded objects.
    pub fn data_stream(&self) -> (res: Option<&[u8]>)
        ensures
            match self.spec_data() {
                Some(d) => res matches Some(r) && r@ == d,
                None => res is None,
            },
    {
        match &self.data_stream {
            Some(d) => Some(d.as_slice()),
            None => None,
        }
    }

    /// Name of the table stream selected by the FIB.
    pub fn table_stream_name(&self) -> (res: &'static str)
        ensures
            res == self.spec_table_stream_name(),
    {
        self.table_stream_name
    }
}

/// Calls `<str as PartialEq>::eq`, which compares the characters.
#[verifier::external_body]
pub(crate) fn str_equal(a: &str, b: &str) -> (res: bool)
    ensures
        res == (a@ == b@),
{
    a == b
}

/// Rejects a stream larger than the configured budget.
pub fn enforce_stream_limit(name: &'static str, length: usize, limits: DocLimits) -> (res: Result<()>)
    ensures
        res is Ok <==> length <= limits.max_stream_bytes,
        res is Err ==> res->Err_0.kind() == ErrorKind::StreamTooLarge,
{
    if length > limits.max_stream_bytes {
        Err(DocError::StreamTooLarge { stream: name, actual: length, limit: limits.max_stream_bytes })
    } else {
        Ok(())
    }
}

/// Decodes the seven stories in global CP order.
fn decode_stories(fib: &Fib, piece_table: &PieceTable, word_document: &[u8]) -> (res: Result<Vec<Story>>)
    requires
        piece_table.wf(),
        fib.stories.spec_total() <= u32::MAX,
    ensures
        err_kind(res) == first_failure(
            story_checks(piece_table.spec_pieces(), piece_table.spec_cp_end(), word_document@, fib.stories),
            7,
        ),
        res matches Ok(stories) ==> {
            &&& stories@.len() == 7
            &&& forall|i: int|
                0 <= i < 7 ==> {
                    let st = #[trigger] stories@[i];
                    &&& st.kind == story_kind_at(i)
                    &&& st.cp_start == story_start_at(fib.stories, i)
                    &&& st.cp_end == story_start_at(fib.stories, i) + story_length_at(fib.stories, i)
                    &&& st.content.cp_start == st.cp_start
                    &&& st.content.cp_end == st.cp_end
                    &&& piece_table.spec_decode(word_document@, st.cp_start, st.cp_end) == Ok::<
                        Seq<u16>,
                        ErrorKind,
                    >(st.content.utf16@)
                    &&& st.content.text@ == utf16_lossy(st.content.utf16@)
                }
        },
{
    let l = fib.stories;
    let kinds = [
        StoryKind::Main,
        StoryKind::Footnotes,
        StoryKind::Headers,
        StoryKind::Comments,
        StoryKind::Endnotes,
        StoryKind::Textboxes,
        StoryKind::HeaderTextboxes,
    ];
    let lengths = [l.main, l.footnotes, l.headers, l.comments, l.endnotes, l.textboxes, l.header_textboxes];
    let ghost fs = story_checks(piece_table.spec_pieces(), piece_table.spec_cp_end(), word_document@, l);
    proof {
        reveal_with_fuel(story_start_at, 8);
    }
    let mut cp_start: u32 = 0;
    let mut stories: Vec<Story> = Vec::new();
    let mut i: usize = 0;
    while i < 7
        invariant
            piece_table.wf(),
            l == fib.stories,
            l.spec_total() <= u32::MAX,
            fs == story_checks(piece_table.spec_pieces(), piece_table.spec_cp_end(), word_document@, l),
            story_start_at(l, 7) == l.spec_total(),
            i <= 7,
            forall|j: int| 0 <= j < 7 ==> #[trigger] kinds@[j] == story_kind_at(j),
            forall|j: int| 0 <= j < 7 ==> #[trigger] lengths@[j] == story_length_at(l, j),
            kinds@.len() == 7,
            lengths@.len() == 7,
            cp_start == story_start_at(l, i as int),
            first_failure(fs, i as int) is None,
            stories@.len() == i,
            forall|j: int|
                0 <= j < i ==> {
                    let st = #[trigger] stories@[j];
                    &&& st.kind == story_kind_at(j)
                    &&& st.cp_start == story_start_at(l, j)
                    &&& st.cp_end == story_start_at(l, j) + story_length_at(l, j)
                    &&& st.content.cp_start == st.cp_start
                    &&& st.content.cp_end == st.cp_end
                    &&& piece_table.spec_decode(word_document@, st.cp_start, st.cp_end) == Ok::<
                        Seq<u16>,
                        ErrorKind,
                    >(st.content.utf16@)
                    &&& st.content.text@ == utf16_lossy(st.content.utf16@)
                },
        decreases 7 - i,
    {
        proof {
            lemma_story_start_bounded(l, i as int + 1);
        }
        let length = lengths[i];
        let cp_end = cp_start + length;
        let content = match piece_table.decode_range(word_document, cp_start, cp_end) {
            Ok(content) => content,
            Err(e) => {
                proof {
                    lemma_first_failure_persists(fs, i as int + 1, 7);
                }
                return Err(e);
            },
        };
        stories.push(Story { kind: kinds[i], cp_start, cp_end, content });
        cp_start = cp_end;
        i = i + 1;
    }
    Ok(stories)
}

proof fn lemma_story_start_bounded(l: StoryLengths, i: int)
    requires
        0 <= i <= 7,
    ensures
        story_start_at(l, i) <= l.spec_total(),
        story_start_at(l, i) >= 0,
{
    reveal_with_fuel(story_start_at, 8);
}

} // verus!

//! Parser errors with stable, non-panicking failure modes.

use vstd::prelude::*;

use crate::text::{append_chars, char_from_u32, chars_of, decimal, decimal_text, push_char};

verus! {

/// Errors produced while opening or parsing a legacy DOC file.
#[allow(inconsistent_fields)]
#[derive(Debug, Clone, PartialEq, Eq)]
pub enum DocError {
    /// Input exceeds the configured byte budget.
    InputTooLarge { actual: usize, limit: usize },
    /// A CFB stream exceeds the configured byte budget.
    StreamTooLarge { stream: &'static str, actual: usize, limit: usize },
    /// A required CFB stream is absent.
    MissingStream(&'static str),
    /// The compound-file reader rejected the container.
    CompoundFile(String),
    /// A fixed or variable FIB field is invalid.
    InvalidFib(String),
    /// The file is an older or unknown Word Binary revision.
    UnsupportedVersion(u16),
    /// Encrypted and obfuscated documents are not parsed without a password API.
    PasswordProtected,
    /// CLX/Pcdt/PlcPcd data is malformed.
    InvalidPieceTable(String),
    /// BTE PLCF, PAPX FKP, or CHPX FKP data is malformed.
    InvalidFormatting(String),
    /// STSH, STD, UPX, or style inheritance data is malformed.
    InvalidStyle(String),
    /// `SttbfFfn` or an FFN font record is malformed.
    InvalidFont(String),
    /// Table markers, row properties, or cell definitions are inconsistent.
    InvalidTable(String),
    /// `PlcfHdd` boundaries or section header/footer linkage is malformed.
    InvalidHeaderFooter(String),
    /// PICF, `OfficeArt`, or source picture-anchor data is malformed.
    InvalidMedia(String),
    /// Footnote/endnote reference or text-boundary PLC data is malformed.
    InvalidNote(String),
    /// A story field PLC or its nested begin/separator/end sequence is malformed.
    InvalidField(String),
    /// Comment reference/body PLC or metadata is malformed.
    InvalidComment(String),
    /// `PlfLst`, `PlfLfo`, or a referenced list level is malformed.
    InvalidList(String),
    /// PLCFSED, SED, SEPX, or a section property is malformed.
    InvalidSection(String),
    /// A declared structure points outside its containing stream.
    OutOfBounds { structure: &'static str, offset: usize, end: usize, available: usize },
    /// A configured count or character budget was exceeded.
    ResourceLimit { resource: &'static str, actual: u64, limit: u64 },
}

/// The variant of a [`DocError`], without its payload; contracts classify
/// failures by this value.
#[derive(Debug, Clone, Copy, PartialEq, Eq, Structural)]
pub enum ErrorKind {
    InputTooLarge,
    StreamTooLarge,
    MissingStream,
    CompoundFile,
    InvalidFib,
    UnsupportedVersion,
    PasswordProtected,
    InvalidPieceTable,
    InvalidFormatting,
    InvalidStyle,
    InvalidFont,
    InvalidTable,
    InvalidHeaderFooter,
    InvalidMedia,
    InvalidNote,
    InvalidField,
    InvalidComment,
    InvalidList,
    InvalidSection,
    OutOfBounds,
    ResourceLimit,
}

impl DocError {
    /// The variant of this error.
    pub open spec fn kind(self) -> ErrorKind {
        match self {
            DocError::InputTooLarge { .. } => ErrorKind::InputTooLarge,
            DocError::StreamTooLarge { .. } => ErrorKind::StreamTooLarge,
            DocError::MissingStream(..) => ErrorKind::MissingStream,
            DocError::CompoundFile(..) => ErrorKind::CompoundFile,
            DocError::InvalidFib(..) => ErrorKind::InvalidFib,
            DocError::UnsupportedVersion(..) => ErrorKind::UnsupportedVersion,
            DocError::PasswordProtected => ErrorKind::PasswordProtected,
            DocError::InvalidPieceTable(..) => ErrorKind::InvalidPieceTable,
            DocError::InvalidFormatting(..) => ErrorKind::InvalidFormatting,
            DocError::InvalidStyle(..) => ErrorKind::InvalidStyle,
            DocError::InvalidFont(..) => ErrorKind::InvalidFont,
            DocError::InvalidTable(..) => ErrorKind::InvalidTable,
            DocError::InvalidHeaderFooter(..) => ErrorKind::InvalidHeaderFooter,
            DocError::InvalidMedia(..) => ErrorKind::InvalidMedia,
            DocError::InvalidNote(..) => ErrorKind::InvalidNote,
            DocError::InvalidField(..) => ErrorKind::InvalidField,
            DocError::InvalidComment(..) => ErrorKind::InvalidComment,
            DocError::InvalidList(..) => ErrorKind::InvalidList,
            DocError::InvalidSection(..) => ErrorKind::InvalidSection,
            DocError::OutOfBounds { .. } => ErrorKind::OutOfBounds,
            DocError::ResourceLimit { .. } => ErrorKind::ResourceLimit,
        }
    }
}

/// Result returned by the Word Binary parser.
pub type Result<T> = core::result::Result<T, DocError>;

/// A spec-level outcome: a value, or the kind of the failure.
pub type Outcome<T> = core::result::Result<T, ErrorKind>;

/// The error kind of a failed result, if it failed.
pub open spec fn err_kind<T>(res: Result<T>) -> Option<ErrorKind> {
    match res {
        Ok(_) => None,
        Err(e) => Some(e.kind()),
    }
}

/// The first failure among the first `k` checks `fs`.
pub open spec fn first_failure(fs: Seq<Option<ErrorKind>>, k: int) -> Option<ErrorKind>
    decreases k,
{
    if k <= 0 {
        None
    } else {
        match first_failure(fs, k - 1) {
            Some(e) => Some(e),
            None => fs[k - 1],
        }
    }
}

/// Once a check has failed, later checks do not change the first failure.
pub proof fn lemma_first_failure_persists(fs: Seq<Option<ErrorKind>>, k: int, j: int)
    requires
        0 <= k <= j,
        first_failure(fs, k) is Some,
    ensures
        first_failure(fs, j) == first_failure(fs, k),
    decreases j - k,
{
    if j > k {
        lemma_first_failure_persists(fs, k, j - 1);
    }
}

/// Builds an owned diagnostic message.
pub fn message(text: &str) -> (res: String)
    ensures
        res@ == text@,
{
    text.to_owned()
}

/// Appends the four upper-case hexadecimal digits of `v`.
pub(crate) fn append_hex4(out: &mut String, v: u16)
    ensures
        final(out)@ == old(out)@ + hex4(v),
{
    let digits: [u16; 4] = [v / 4096, (v / 256) % 16, (v / 16) % 16, v % 16];
    let mut k: usize = 0;
    let ghost start = old(out)@;
    while k < 4
        invariant
            k <= 4,
            digits@ == seq![v / 4096, (v / 256) % 16, (v / 16) % 16, v % 16],
            out@ =~= start + hex4(v).take(k as int),
        decreases 4 - k,
    {
        let d = digits[k];
        let code: u32 = if d < 10 {
            48 + d as u32
        } else {
            55 + d as u32
        };
        match char_from_u32(code) {
            Some(c) => {
                assert(c == hex_digit(d as int));
                push_char(out, c);
            },
            None => {},
        }
        assert(hex4(v).take(k + 1) =~= hex4(v).take(k as int).push(hex_digit(d as int)));
        k = k + 1;
    }
    assert(hex4(v).take(4) =~= hex4(v));
}

/// The four upper-case hexadecimal digits of `v`.
pub open spec fn hex4(v: u16) -> Seq<char> {
    seq![hex_digit((v / 4096) as int), hex_digit(((v / 256) % 16) as int), hex_digit(((v / 16) % 16) as int), hex_digit(
        (v % 16) as int,
    )]
}

/// The upper-case hexadecimal digit of `d`.
pub open spec fn hex_digit(d: int) -> char {
    if d < 10 {
        (48 + d) as char
    } else {
        (55 + d) as char
    }
}

/// The message of an error.
pub open spec fn error_text(e: DocError) -> Seq<char> {
    match e {
        DocError::InputTooLarge { actual, limit } => "DOC input is "@ + decimal(actual as nat) + " bytes; limit is "@
            + decimal(limit as nat) + " bytes"@,
        DocError::StreamTooLarge { stream, actual, limit } => "DOC stream "@ + stream@ + " is "@ + decimal(
            actual as nat,
        ) + " bytes; limit is "@ + decimal(limit as nat) + " bytes"@,
        DocError::MissingStream(name) => "required DOC stream is missing: "@ + name@,
        DocError::CompoundFile(m) => "invalid DOC compound file: "@ + m@,
        DocError::InvalidFib(m) => "invalid DOC FIB: "@ + m@,
        DocError::UnsupportedVersion(v) => "unsupported Word Binary revision: 0x"@ + hex4(v),
        DocError::PasswordProtected => "password-protected DOC documents are not supported"@,
        DocError::InvalidPieceTable(m) => "invalid DOC piece table: "@ + m@,
        DocError::InvalidFormatting(m) => "invalid DOC formatting table: "@ + m@,
        DocError::InvalidStyle(m) => "invalid DOC stylesheet: "@ + m@,
        DocError::InvalidFont(m) => "invalid DOC font table: "@ + m@,
        DocError::InvalidTable(m) => "invalid DOC table structure: "@ + m@,
        DocError::InvalidHeaderFooter(m) => "invalid DOC header/footer table: "@ + m@,
        DocError::InvalidMedia(m) => "invalid DOC media data: "@ + m@,
        DocError::InvalidNote(m) => "invalid DOC note table: "@ + m@,
        DocError::InvalidField(m) => "invalid DOC field table: "@ + m@,
        DocError::InvalidComment(m) => "invalid DOC comment table: "@ + m@,
        DocError::InvalidList(m) => "invalid DOC list table: "@ + m@,
        DocError::InvalidSection(m) => "invalid DOC section table: "@ + m@,
        DocError::OutOfBounds { structure, offset, end, available } => structure@ + " range ["@ + decimal(
            offset as nat,
        ) + ", "@ + decimal(end as nat) + ") exceeds containing stream length "@ + decimal(available as nat),
        DocError::ResourceLimit { resource, actual, limit } => "DOC "@ + resource@ + " count "@ + decimal(actual as nat)
            + " exceeds limit "@ + decimal(limit as nat),
    }
}

/// Appends `s`.
fn put(out: &mut String, s: &str)
    ensures
        final(out)@ == old(out)@ + s@,
{
    let chars = chars_of(s);
    append_chars(out, &chars);
}

/// Appends the decimal digits of `n`.
fn put_decimal(out: &mut String, n: u64)
    ensures
        final(out)@ == old(out)@ + decimal(n as nat),
{
    let digits = decimal_text(n);
    append_chars(out, &digits);
}

impl DocError {
    /// The error's message.
    pub fn describe(&self) -> (res: String)
        ensures
            res@ == error_text(*self),
    {
        let mut out = String::new();
        match self {
            DocError::InputTooLarge { actual, limit } => {
                put(&mut out, "DOC input is ");
                put_decimal(&mut out, *actual as u64);
                put(&mut out, " bytes; limit is ");
                put_decimal(&mut out, *limit as u64);
                put(&mut out, " bytes");
            },
            DocError::StreamTooLarge { stream, actual, limit } => {
                put(&mut out, "DOC stream ");
                put(&mut out, stream);
                put(&mut out, " is ");
                put_decimal(&mut out, *actual as u64);
                put(&mut out, " bytes; limit is ");
                put_decimal(&mut out, *limit as u64);
                put(&mut out, " bytes");
            },
            DocError::MissingStream(name) => {
                put(&mut out, "required DOC stream is missing: ");
                put(&mut out, name);
            },
            DocError::CompoundFile(m) => {
                put(&mut out, "invalid DOC compound file: ");
                put(&mut out, m.as_str());
            },
            DocError::InvalidFib(m) => {
                put(&mut out, "invalid DOC FIB: ");
                put(&mut out, m.as_str());
            },
            DocError::UnsupportedVersion(v) => {
                put(&mut out, "unsupported Word Binary revision: 0x");
                append_hex4(&mut out, *v);
            },
            DocError::PasswordProtected => {
                put(&mut out, "password-protected DOC documents are not supported");
            },
            DocError::InvalidPieceTable(m) => {
                put(&mut out, "invalid DOC piece table: ");
                put(&mut out, m.as_str());
            },
            DocError::InvalidFormatting(m) => {
                put(&mut out, "invalid DOC formatting table: ");
                put(&mut out, m.as_str());
            },
            DocError::InvalidStyle(m) => {
                put(&mut out, "invalid DOC stylesheet: ");
                put(&mut out, m.as_str());
            },
            DocError::InvalidFont(m) => {
                put(&mut out, "invalid DOC font table: ");
                put(&mut out, m.as_str());
            },
            DocError::InvalidTable(m) => {
                put(&mut out, "invalid DOC table structure: ");
                put(&mut out, m.as_str());
            },
            DocError::InvalidHeaderFooter(m) => {
                put(&mut out, "invalid DOC header/footer table: ");
                put(&mut out, m.as_str());
            },
            DocError::InvalidMedia(m) => {
                put(&mut out, "invalid DOC media data: ");
                put(&mut out, m.as_str());
            },
            DocError::InvalidNote(m) => {
                put(&mut out, "invalid DOC note table: ");
                put(&mut out, m.as_str());
            },
            DocError::InvalidField(m) => {
                put(&mut out, "invalid DOC field table: ");
                put(&mut out, m.as_str());
            },
            DocError::InvalidComment(m) => {
                put(&mut out, "invalid DOC comment table: ");
                put(&mut out, m.as_str());
            },
            DocError::InvalidList(m) => {
                put(&mut out, "invalid DOC list table: ");
                put(&mut out, m.as_str());
            },
            DocError::InvalidSection(m) => {
                put(&mut out, "invalid DOC section table: ");
                put(&mut out, m.as_str());
            },
            DocError::OutOfBounds { structure, offset, end, available } => {
                put(&mut out, structure);
                put(&mut out, " range [");
                put_decimal(&mut out, *offset as u64);
                put(&mut out, ", ");
                put_decimal(&mut out, *end as u64);
                put(&mut out, ") exceeds containing stream length ");
                put_decimal(&mut out, *available as u64);
            },
            DocError::ResourceLimit { resource, actual, limit } => {
                put(&mut out, "DOC ");
                put(&mut out, resource);
                put(&mut out, " count ");
                put_decimal(&mut out, *actual);
                put(&mut out, " exceeds limit ");
                put_decimal(&mut out, *limit);
            },
        }
        out
    }
}

} // verus!

//! The legacy Office bridge entry points that work on raw bytes: the
//! legacy/OOXML format pairs and plain-text extraction through
//! `office_oxide`'s document reader.

use vstd::prelude::*;

use office_oxide::{Document, OfficeError};
use std::io::Cursor;

use crate::format::{DocumentFormat, ascii_lower, lower_ascii};

verus! {

#[verifier::external_type_specification]
#[verifier::external_body]
pub struct ExOfficeDocument(Document);

#[verifier::external_type_specification]
#[verifier::external_body]
pub struct ExOfficeError(OfficeError);

/// The (legacy, OOXML) format pair a bridge format name names, compared
/// without regard to ASCII case.
pub open spec fn legacy_format_pair(name: Seq<char>) -> Option<(DocumentFormat, DocumentFormat)> {
    let lowered = ascii_lower(name);
    if lowered == "doc"@ {
        Some((DocumentFormat::Doc, DocumentFormat::Docx))
    } else if lowered == "xls"@ {
        Some((DocumentFormat::Xls, DocumentFormat::Xlsx))
    } else if lowered == "ppt"@ {
        Some((DocumentFormat::Ppt, DocumentFormat::Pptx))
    } else {
        None
    }
}

/// Whether a format is one `office_oxide`'s reader takes.
pub open spec fn office_format(format: DocumentFormat) -> bool {
    format == DocumentFormat::Docx || format == DocumentFormat::Xlsx || format == DocumentFormat::Pptx || format
        == DocumentFormat::Doc || format == DocumentFormat::Xls || format == DocumentFormat::Ppt
}

/// The message that refuses a format name that is not `doc`, `xls` or `ppt`.
pub open spec fn unsupported_format_message(name: Seq<char>) -> Seq<char> {
    "unsupported legacy Office format: "@ + name
}

/// An `office_oxide` document with the bytes and format it was read from.
pub struct LegacyDocument {
    document: Document,
    source: Ghost<(Seq<u8>, DocumentFormat)>,
}

/// `Document::from_reader` over an in-memory copy of `data`, with the
/// library's format mapped to `office_oxide`'s. Nothing is claimed of the
/// outcome: the reader parses on a thread of its own, which may fail to
/// start, and under process-wide limits that any caller may change.
#[verifier::external_body]
fn office_open(data: &[u8], format: DocumentFormat) -> (res: core::result::Result<Document, OfficeError>)
    requires
        office_format(format),
{
    let target = match format {
        DocumentFormat::Docx => office_oxide::DocumentFormat::Docx,
        DocumentFormat::Xlsx => office_oxide::DocumentFormat::Xlsx,
        DocumentFormat::Pptx => office_oxide::DocumentFormat::Pptx,
        DocumentFormat::Doc => office_oxide::DocumentFormat::Doc,
        DocumentFormat::Xls => office_oxide::DocumentFormat::Xls,
        _ => office_oxide::DocumentFormat::Ppt,
    };
    Document::from_reader(Cursor::new(data.to_vec()), target)
}

/// The reader's diagnostic text for a failure: `OfficeError`'s `Display`.
/// Nothing is claimed of the text.
#[verifier::external_body]
fn office_error_text(error: &OfficeError) -> String {
    error.to_string()
}

/// `Document::plain_text`. Nothing is claimed of the text: the reader cuts
/// it off at a process-wide text budget that any caller may change.
#[verifier::external_body]
fn office_plain_text(document: &LegacyDocument) -> String {
    document.document.plain_text()
}

impl LegacyDocument {
    /// The bytes and format this document was read from.
    pub closed spec fn spec_source(&self) -> (Seq<u8>, DocumentFormat) {
        self.source@
    }

    /// Reads `data` as a document of `format`.
    pub fn open(data: &[u8], format: DocumentFormat) -> (res: Result<LegacyDocument, String>)
        requires
            office_format(format),
        ensures
            res matches Ok(d) ==> d.spec_source() == (data@, format),
    {
        match office_open(data, format) {
            Ok(document) => Ok(LegacyDocument { document, source: Ghost((data@, format)) }),
            Err(error) => Err(office_error_text(&error)),
        }
    }

    /// The document's plain text, as the reader gives it.
    pub fn plain_text(&self) -> String {
        office_plain_text(self)
    }
}

/// The legacy source format and OOXML target format of a bridge format name
/// (`doc`, `xls` or `ppt`, in any ASCII case).
pub fn legacy_formats(format: &str) -> (res: Result<(DocumentFormat, DocumentFormat), String>)
    ensures
        match legacy_format_pair(format@) {
            Some(pair) => res == Ok::<(DocumentFormat, DocumentFormat), String>(pair),
            None => res matches Err(m) && m@ == unsupported_format_message(format@),
        },
{
    let lowered = lower_ascii(format);
    proof {
        reveal_strlit("doc");
        reveal_strlit("xls");
        reveal_strlit("ppt");
    }
    if crate::document::str_equal(lowered.as_str(), "doc") {
        Ok((DocumentFormat::Doc, DocumentFormat::Docx))
    } else if crate::document::str_equal(lowered.as_str(), "xls") {
        Ok((DocumentFormat::Xls, DocumentFormat::Xlsx))
    } else if crate::document::str_equal(lowered.as_str(), "ppt") {
        Ok((DocumentFormat::Ppt, DocumentFormat::Pptx))
    } else {
        let mut text = crate::error::message("unsupported legacy Office format: ");
        crate::text::append_str(&mut text, format);
        proof {
            reveal_strlit("unsupported legacy Office format: ");
        }
        Err(text)
    }
}

/// Extracts the plain text of a legacy Office document held in `data`.
pub fn extract_legacy_plain_text(data: &[u8], format: &str) -> (res: Result<String, String>)
    ensures
        legacy_format_pair(format@) is None ==> (res matches Err(m) && m@ == unsupported_format_message(format@)),
{
    let (source, _) = legacy_formats(format)?;
    let document = LegacyDocument::open(data, source)?;
    Ok(document.plain_text())
}

} // verus!

//! Format-neutral contracts shared by the viewer adapters.

use vstd::prelude::*;

use crate::document::str_equal;

verus! {

/// File formats accepted by the public viewer API.
#[derive(Debug, Clone, Copy, PartialEq, Eq, Structural)]
pub enum DocumentFormat {
    /// Word Open XML.
    Docx,
    /// Excel Open XML.
    Xlsx,
    /// `PowerPoint` Open XML.
    Pptx,
    /// Legacy Word binary.
    Doc,
    /// Legacy Excel binary.
    Xls,
    /// Legacy `PowerPoint` binary.
    Ppt,
    /// Portable Document Format.
    Pdf,
    /// PNG image.
    Png,
    /// JPEG image.
    Jpeg,
    /// GIF image.
    Gif,
    /// WebP image.
    Webp,
    /// SVG image.
    Svg,
    /// BMP image.
    Bmp,
    /// TIFF image.
    Tiff,
}

/// `s` without its leading `'.'` characters.
pub open spec fn trim_leading_dots(s: Seq<char>) -> Seq<char>
    decreases s.len(),
{
    if s.len() > 0 && s[0] == '.' {
        trim_leading_dots(s.drop_first())
    } else {
        s
    }
}

/// `c` with ASCII `'A'..='Z'` mapped to `'a'..='z'`.
pub open spec fn ascii_lower_char(c: char) -> char {
    if 'A' <= c <= 'Z' {
        ((c as u32) + 32) as char
    } else {
        c
    }
}

/// `s` with every ASCII upper-case letter lowered.
pub open spec fn ascii_lower(s: Seq<char>) -> Seq<char> {
    s.map_values(|c: char| ascii_lower_char(c))
}

/// The format named by a lower-case extension without leading dots.
pub open spec fn format_of_name(s: Seq<char>) -> Option<DocumentFormat> {
    if s == seq!['d', 'o', 'c', 'x'] {
        Some(DocumentFormat::Docx)
    } else if s == seq!['x', 'l', 's', 'x'] {
        Some(DocumentFormat::Xlsx)
    } else if s == seq!['p', 'p', 't', 'x'] {
        Some(DocumentFormat::Pptx)
    } else if s == seq!['d', 'o', 'c'] {
        Some(DocumentFormat::Doc)
    } else if s == seq!['x', 'l', 's'] {
        Some(DocumentFormat::Xls)
    } else if s == seq!['p', 'p', 't'] {
        Some(DocumentFormat::Ppt)
    } else if s == seq!['p', 'd', 'f'] {
        Some(DocumentFormat::Pdf)
    } else if s == seq!['p', 'n', 'g'] {
        Some(DocumentFormat::Png)
    } else if s == seq!['j', 'p', 'g'] || s == seq!['j', 'p', 'e', 'g'] {
        Some(DocumentFormat::Jpeg)
    } else if s == seq!['g', 'i', 'f'] {
        Some(DocumentFormat::Gif)
    } else if s == seq!['w', 'e', 'b', 'p'] {
        Some(DocumentFormat::Webp)
    } else if s == seq!['s', 'v', 'g'] {
        Some(DocumentFormat::Svg)
    } else if s == seq!['b', 'm', 'p'] {
        Some(DocumentFormat::Bmp)
    } else if s == seq!['t', 'i', 'f'] || s == seq!['t', 'i', 'f', 'f'] {
        Some(DocumentFormat::Tiff)
    } else {
        None
    }
}

/// Calls `str::trim_start_matches` with the pattern `'.'`, which removes every
/// leading `'.'`.
#[verifier::external_body]
fn trim_dots(s: &str) -> (res: &str)
    ensures
        res@ == trim_leading_dots(s@),
{
    s.trim_start_matches('.')
}

/// Calls `str::to_ascii_lowercase`, which lowers `'A'..='Z'` and keeps every
/// other character.
#[verifier::external_body]
pub(crate) fn lower_ascii(s: &str) -> (res: String)
    ensures
        res@ == ascii_lower(s@),
{
    s.to_ascii_lowercase()
}

impl DocumentFormat {
    /// Parse a case-insensitive extension with or without a leading dot.
    pub fn from_extension(extension: &str) -> (res: Option<Self>)
        ensures
            res == format_of_name(ascii_lower(trim_leading_dots(extension@))),
    {
        let lowered = lower_ascii(trim_dots(extension));
        let name = lowered.as_str();
        proof {
            reveal_strlit("docx");
            reveal_strlit("xlsx");
            reveal_strlit("pptx");
            reveal_strlit("doc");
            reveal_strlit("xls");
            reveal_strlit("ppt");
            reveal_strlit("pdf");
            reveal_strlit("png");
            reveal_strlit("jpg");
            reveal_strlit("jpeg");
            reveal_strlit("gif");
            reveal_strlit("webp");
            reveal_strlit("svg");
            reveal_strlit("bmp");
            reveal_strlit("tif");
            reveal_strlit("tiff");
            assert("docx"@ =~= seq!['d', 'o', 'c', 'x']);
            assert("xlsx"@ =~= seq!['x', 'l', 's', 'x']);
            assert("pptx"@ =~= seq!['p', 'p', 't', 'x']);
            assert("doc"@ =~= seq!['d', 'o', 'c']);
            assert("xls"@ =~= seq!['x', 'l', 's']);
            assert("ppt"@ =~= seq!['p', 'p', 't']);
            assert("pdf"@ =~= seq!['p', 'd', 'f']);
            assert("png"@ =~= seq!['p', 'n', 'g']);
            assert("jpg"@ =~= seq!['j', 'p', 'g']);
            assert("jpeg"@ =~= seq!['j', 'p', 'e', 'g']);
            assert("gif"@ =~= seq!['g', 'i', 'f']);
            assert("webp"@ =~= seq!['w', 'e', 'b', 'p']);
            assert("svg"@ =~= seq!['s', 'v', 'g']);
            assert("bmp"@ =~= seq!['b', 'm', 'p']);
            assert("tif"@ =~= seq!['t', 'i', 'f']);
            assert("tiff"@ =~= seq!['t', 'i', 'f', 'f']);
        }
        if str_equal(name, "docx") {
            Some(Self::Docx)
        } else if str_equal(name, "xlsx") {
            Some(Self::Xlsx)
        } else if str_equal(name, "pptx") {
            Some(Self::Pptx)
        } else if str_equal(name, "doc") {
            Some(Self::Doc)
        } else if str_equal(name, "xls") {
            Some(Self::Xls)
        } else if str_equal(name, "ppt") {
            Some(Self::Ppt)
        } else if str_equal(name, "pdf") {
            Some(Self::Pdf)
        } else if str_equal(name, "png") {
            Some(Self::Png)
        } else if str_equal(name, "jpg") || str_equal(name, "jpeg") {
            Some(Self::Jpeg)
        } else if str_equal(name, "gif") {
            Some(Self::Gif)
        } else if str_equal(name, "webp") {
            Some(Self::Webp)
        } else if str_equal(name, "svg") {
            Some(Self::Svg)
        } else if str_equal(name, "bmp") {
            Some(Self::Bmp)
        } else if str_equal(name, "tif") || str_equal(name, "tiff") {
            Some(Self::Tiff)
        } else {
            None
        }
    }

    /// Whether the format requires the legacy-to-OOXML conversion adapter.
    pub fn is_legacy_office(self) -> (res: bool)
        ensures
            res == (self == DocumentFormat::Doc || self == DocumentFormat::Xls || self
                == DocumentFormat::Ppt),
    {
        match self {
            DocumentFormat::Doc | DocumentFormat::Xls | DocumentFormat::Ppt => true,
            _ => false,
        }
    }
}

/// Stable error codes crossing the Rust/TypeScript boundary.
#[derive(Debug, Clone, Copy, PartialEq, Eq, Structural)]
pub enum ViewerErrorCode {
    /// File format cannot be detected or is not supported.
    UnsupportedFormat,
    /// Input is malformed or corrupt.
    InvalidDocument,
    /// Document is encrypted or password protected.
    PasswordProtected,
    /// Rendering failed after parsing succeeded.
    RenderFailed,
    /// Operation was cancelled by the host.
    Cancelled,
    /// Adapter failed for another reason.
    Internal,
}

/// Internal error carrying a stable code and safe message.
#[derive(Debug)]
pub struct ViewerError {
    /// Machine-readable code.
    pub code: ViewerErrorCode,
    /// Human-readable diagnostic.
    pub message: String,
}

} // verus!

//! Bounded parser for the Microsoft Word Binary File Format (`.doc`).
//!
//! Parsed structures retain source character positions so formatting,
//! sections, and tables can be layered on without heuristics.

pub mod binary;
pub mod error;
pub mod limits;

pub use error::{DocError, ErrorKind, Result};
pub use limits::DocLimits;
pub mod fib;
pub use fib::{FcLcb, Fib, FibBase, FibLocations, StoryLengths};
pub mod sprm;
pub use sprm::{PropertyGroup, Sprm, decode_grpprl};
pub mod text;
pub mod piece_table;
pub use piece_table::{DecodedText, PieceEncoding, PiecePropertyModifier, PieceTable, TextPiece};
pub mod document;
pub use document::{Story, StoryKind, WordBinaryDocument};
pub mod format;
pub use format::{DocumentFormat, ViewerError, ViewerErrorCode};
pub mod fonts;
pub use fonts::{FontEntry, FontTable};
pub mod seq_util;
pub mod fields;
pub use fields::{Field, FieldCollection};
pub mod plc;
pub mod notes;
pub use notes::{NoteCollection, NoteKind, NoteReference, SourceNote};
pub mod comments;
pub mod properties;
pub mod sections;
pub mod styles;
pub mod formatting;
pub mod headers;
pub mod media;
pub mod lists;
pub mod tables;
pub mod ooxml_ir;
pub mod container;
pub mod xls_biff;
pub mod xls_sheet;
pub mod xls_workbook;
pub mod xls_ooxml;
pub mod xls_styles;
pub mod doc_tables;
pub mod doc_comments;
pub mod doc_numbering;
pub mod sheet_patch;
pub mod bridge;
pub mod package;
pub mod opc;
pub mod docx_model;
pub use comments::{CommentCollection, SourceComment};
pub use media::{BlipFormat, BlipImage, InlinePicture, MediaCollection, PictureGeometry, PictureStorage};
pub use lists::{
    ListCollection, ListDefinition, ListFollow, ListLevel, ListLevelOverride, ListOverride, ResolvedListParagraph,
};
pub use tables::{
    CellFormat, CellMargins, HorizontalMerge, Table, TableCell, TableCollection, TablePropertyDelta, TableRow,
    TableRowDefinition, VerticalMerge, apply_table_sprms,
};
pub use headers::{HeaderFooterKind, HeaderFooterLink, HeaderFooterStory, HeaderFooterTable, SectionHeaderFooters};
pub use properties::{
    CharacterPropertyDelta, LineSpacing, ParagraphPropertyDelta, TabChange, TabStop, ToggleValue, VerticalAlignment,
    apply_character_sprms, apply_paragraph_sprms,
};
pub use sections::{PageOrientation, Section, SectionGeometry, SectionTable};
pub use styles::{DefaultStyleFonts, InheritedStyleProperties, StyleDefinition, StyleKind, StyleSheet};
pub use formatting::{
    FormattingIndex, FormattingRun, LogicalFormattingIndex, LogicalFormattingRun, SemanticCharacterRun,
    SemanticFormattingIndex, SemanticParagraphRun, StyledCharacterRun, StyledFormattingIndex, StyledParagraphRun,
};

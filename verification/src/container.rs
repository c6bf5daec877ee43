//! Stream access to the OLE compound file that holds a Word document.
//!
//! The container format itself is read by `office_oxide`'s CFB reader; this
//! module states what the library relies on from it: opening is decided by
//! the container bytes, and a stream lookup or read is decided by the
//! container bytes and the stream name.

use vstd::prelude::*;

use office_oxide::cfb::{CfbError, CfbReader};
use std::io::Cursor;

use crate::document::enforce_stream_limit;
use crate::error::{DocError, ErrorKind, Result};
use crate::limits::DocLimits;

verus! {

#[verifier::external_type_specification]
#[verifier::external_body]
#[verifier::reject_recursive_types(R)]
pub struct ExCfbReader<R>(CfbReader<R>);

#[verifier::external_type_specification]
#[verifier::external_body]
pub struct ExCfbError(CfbError);

#[verifier::external_type_specification]
#[verifier::external_body]
#[verifier::reject_recursive_types(T)]
pub struct ExCursor<T>(Cursor<T>);

/// Whether `CfbReader::new` accepts the container bytes `data`.
pub uninterp spec fn compound_opens(data: Seq<u8>) -> bool;

/// Whether `CfbReader::has_stream` finds stream `name` in container `data`.
pub uninterp spec fn compound_has_stream(data: Seq<u8>, name: Seq<char>) -> bool;

/// The bytes `CfbReader::open_stream` reads for stream `name` of container
/// `data`, or `None` when it fails.
pub uninterp spec fn compound_stream(data: Seq<u8>, name: Seq<char>) -> Option<Seq<u8>>;

/// An opened compound file with the bytes it was opened from.
pub struct CompoundFile<'a> {
    reader: CfbReader<Cursor<&'a [u8]>>,
    source: Ghost<Seq<u8>>,
}

/// Opens the container: `office_oxide::cfb::CfbReader::new` over a cursor
/// on `data`. Claimed: it succeeds exactly when `compound_opens(data)`.
#[verifier::external_body]
fn cfb_open(data: &[u8]) -> (res: core::result::Result<CfbReader<Cursor<&[u8]>>, CfbError>)
    ensures
        res is Ok <==> compound_opens(data@),
{
    CfbReader::new(Cursor::new(data))
}

/// `CfbReader::has_stream`. Claimed: the answer is `compound_has_stream`
/// of the container bytes the file was opened from and the name.
#[verifier::external_body]
fn cfb_has_stream(file: &CompoundFile, name: &str) -> (res: bool)
    ensures
        res == compound_has_stream(file.source@, name@),
{
    file.reader.has_stream(name)
}

/// `CfbReader::open_stream`. Claimed: it reads `compound_stream` of the
/// container bytes and the name, fails exactly when that is `None`, and
/// leaves the file opened from the same bytes.
#[verifier::external_body]
fn cfb_open_stream(file: &mut CompoundFile, name: &str) -> (res: core::result::Result<Vec<u8>, CfbError>)
    ensures
        final(file).source == old(file).source,
        match compound_stream(old(file).source@, name@) {
            Some(bytes) => res matches Ok(v) && v@ == bytes,
            None => res is Err,
        },
{
    file.reader.open_stream(name)
}

/// The reader's diagnostic text for a failure: `CfbError`'s `Display`
/// (`to_string`). Nothing is claimed of the text.
#[verifier::external_body]
fn cfb_error_text(error: &CfbError) -> String {
    error.to_string()
}

impl<'a> CompoundFile<'a> {
    /// The container bytes this file was opened from.
    pub closed spec fn spec_source(&self) -> Seq<u8> {
        self.source@
    }

    /// Opens the compound file held in `data`.
    pub fn open(data: &'a [u8]) -> (res: Result<CompoundFile<'a>>)
        ensures
            res is Ok <==> compound_opens(data@),
            res matches Ok(file) ==> file.spec_source() == data@,
            res is Err ==> res->Err_0.kind() == ErrorKind::CompoundFile,
    {
        match cfb_open(data) {
            Ok(reader) => Ok(CompoundFile { reader, source: Ghost(data@) }),
            Err(error) => Err(DocError::CompoundFile(cfb_error_text(&error))),
        }
    }

    /// Reads the stream named `name`, or `None` when the reader fails.
    pub fn read_stream(&mut self, name: &str) -> (res: Option<Vec<u8>>)
        ensures
            final(self).spec_source() == old(self).spec_source(),
            match compound_stream(old(self).spec_source(), name@) {
                Some(bytes) => res matches Some(v) && v@ == bytes,
                None => res is None,
            },
    {
        match cfb_open_stream(self, name) {
            Ok(bytes) => Some(bytes),
            Err(_) => None,
        }
    }

    /// Whether the container has a stream named `name`.
    pub fn has_stream(&self, name: &str) -> (res: bool)
        ensures
            res == compound_has_stream(self.spec_source(), name@),
    {
        cfb_has_stream(self, name)
    }
}

/// Reading stream `name` of container `data` under `limits`: its bytes, or
/// the kind of the failure.
pub open spec fn stream_outcome(data: Seq<u8>, name: Seq<char>, limits: DocLimits) -> crate::error::Outcome<
    Seq<u8>,
> {
    if !compound_has_stream(data, name) {
        Err(ErrorKind::MissingStream)
    } else {
        match compound_stream(data, name) {
            None => Err(ErrorKind::CompoundFile),
            Some(bytes) => if bytes.len() > limits.max_stream_bytes {
                Err(ErrorKind::StreamTooLarge)
            } else {
                Ok(bytes)
            },
        }
    }
}

/// Reads a stream that must be present, within the stream budget.
pub fn read_required_stream(file: &mut CompoundFile, name: &'static str, limits: DocLimits) -> (res: Result<Vec<u8>>)
    ensures
        final(file).spec_source() == old(file).spec_source(),
        match stream_outcome(old(file).spec_source(), name@, limits) {
            Ok(bytes) => res matches Ok(v) && v@ == bytes,
            Err(e) => res is Err && res->Err_0.kind() == e,
        },
{
    if !cfb_has_stream(file, name) {
        return Err(DocError::MissingStream(name));
    }
    let stream = match cfb_open_stream(file, name) {
        Ok(bytes) => bytes,
        Err(error) => {
            return Err(DocError::CompoundFile(cfb_error_text(&error)));
        },
    };
    enforce_stream_limit(name, stream.len(), limits)?;
    Ok(stream)
}

} // verus!

//! In-memory ZIP packages: reading their parts, writing parts back, and the
//! part rewrites that add source table layout, comments and numbering to a
//! generated DOCX and source formatting to a generated XLSX.

use vstd::prelude::*;

use std::io::{Cursor, Read, Write};
use zip::write::{SimpleFileOptions, ZipWriter};
use zip::{CompressionMethod, ZipArchive};

use std::collections::{BTreeSet, HashMap};

use crate::comments::{CommentCollection, SourceComment};
use crate::doc_comments::{ProjectedComment, comment_projectable, comments_document_patch, comments_part, projected_from};
use crate::doc_tables::{RowHeightPatch, document_patch, patch_document_xml};
use crate::doc_numbering::{markers_from, numbering_document_patch, numbering_text};
use crate::document::{WordBinaryDocument, str_equal};
use crate::fonts::{FontEntry, FontTable};
use crate::lists::ListCollection;
use crate::opc::{
    can_declare, can_relate, declare_part, declared_part, new_relationship_part, related_part, relate_part,
    single_relationship_part,
};
use crate::error::message;
use crate::sheet_patch::{
    has_external, has_external_hyperlinks, new_relationships, new_relationships_text, patch_relationships, patch_worksheet,
    relationships_patch, sheet_links, worksheet_index, worksheet_index_of, worksheet_patch,
};
use crate::text::decimal;
use crate::xls_styles::{styles_text, styles_xml};
use crate::xls_workbook::WorkbookFormatting;
use vstd::std_specs::cmp::OrdSpec;
use vstd::std_specs::iter::IteratorSpec;
use vstd::utf8::encode_utf8;

verus! {

#[verifier::external_type_specification]
#[verifier::external_body]
#[verifier::reject_recursive_types(R)]
pub struct ExZipArchive<R>(ZipArchive<R>);

#[verifier::external_type_specification]
#[verifier::external_body]
pub struct ExCompressionMethod(CompressionMethod);

/// A `ZipWriter` over an in-memory cursor. Verus refuses a declaration of
/// `ZipWriter` itself, whose parameter is bound by `Write + Seek`, so the
/// writer is held here, hidden from Verus.
#[verifier::external_body]
pub struct PackageWriter {
    writer: ZipWriter<Cursor<Vec<u8>>>,
}

/// A (name, bytes) view of one package file.
pub type PartView = (Seq<char>, Seq<u8>);

/// One file of a package: its name, how it is compressed, and its bytes.
pub struct PackagePart {
    pub name: String,
    pub compression: CompressionMethod,
    pub data: Vec<u8>,
}

/// The names and bytes of `parts`, in order.
pub open spec fn parts_view(parts: Seq<PackagePart>) -> Seq<PartView> {
    parts.map_values(|p: PackagePart| (p.name@, p.data@))
}

/// Whether an entry named `name` is a directory: its name ends in `/` or `\`.
pub open spec fn name_is_dir(name: Seq<char>) -> bool {
    name.len() > 0 && (name.last() == '/' || name.last() == '\\')
}

/// Whether no name of `v` is a directory name.
pub open spec fn no_dir_names(v: Seq<PartView>) -> bool {
    forall|i: int| 0 <= i < v.len() ==> !name_is_dir(#[trigger] v[i].0)
}

/// Whether `ZipArchive::new` reads the in-memory archive `data`.
pub uninterp spec fn zip_opens(data: Seq<u8>) -> bool;

/// The number of entries the central directory of archive `data` lists.
pub uninterp spec fn zip_len(data: Seq<u8>) -> nat;

/// The name and the bytes of entry `i` of archive `data`, or `None` when
/// that entry cannot be read.
pub uninterp spec fn zip_entry_at(data: Seq<u8>, i: int) -> Option<PartView>;

/// The files (entries that are not directories) among the first `n` entries
/// of archive `data`, in order; `None` when one of those entries cannot be read.
pub open spec fn files_upto(data: Seq<u8>, n: int) -> Option<Seq<PartView>>
    decreases n,
{
    if n <= 0 {
        Some(seq![])
    } else {
        match files_upto(data, n - 1) {
            None => None,
            Some(fs) => match zip_entry_at(data, n - 1) {
                None => None,
                Some(e) => if name_is_dir(e.0) {
                    Some(fs)
                } else {
                    Some(fs.push(e))
                },
            },
        }
    }
}

/// The files of the in-memory archive `data`, in order, or `None` when it
/// cannot be read.
pub open spec fn zip_files(data: Seq<u8>) -> Option<Seq<PartView>> {
    if !zip_opens(data) {
        None
    } else {
        files_upto(data, zip_len(data) as int)
    }
}

/// The entries a package writer has been given, in order.
pub uninterp spec fn written_entries(w: PackageWriter) -> Seq<PartView>;

/// An archive opened over in-memory bytes, with the bytes it was opened from.
pub struct PackageReader {
    archive: ZipArchive<Cursor<Vec<u8>>>,
    source: Ghost<Seq<u8>>,
}

/// `ZipArchive::new` over an in-memory cursor, with the error's text.
/// Claimed: it succeeds exactly when `zip_opens` holds of the bytes (the
/// central directory is read from them alone).
#[verifier::external_body]
fn zip_open(data: Vec<u8>) -> (res: core::result::Result<ZipArchive<Cursor<Vec<u8>>>, String>)
    ensures
        res is Ok <==> zip_opens(data@),
{
    match ZipArchive::new(Cursor::new(data)) {
        Ok(archive) => Ok(archive),
        Err(error) => Err(error.to_string()),
    }
}

/// `ZipArchive::len`. Claimed: the number of entries of the archive the
/// reader was opened from.
#[verifier::external_body]
fn zip_entry_count(reader: &PackageReader) -> (res: usize)
    ensures
        res == zip_len(reader.source@),
{
    reader.archive.len()
}

/// `ZipArchive::by_index` for entry `index`, converted to its name, whether
/// it is a directory, its compression method and its bytes (read with
/// `read_to_end`), with the error's text. Claimed: it succeeds exactly when
/// `zip_entry_at` names the entry, whose name and bytes it gives, and
/// `is_dir` tells a name ending in `/` or `\`, as the crate's source does.
#[verifier::external_body]
fn zip_entry(reader: &mut PackageReader, index: usize) -> (res: core::result::Result<
    (String, bool, CompressionMethod, Vec<u8>),
    String,
>)
    requires
        index < zip_len(old(reader).source@),
    ensures
        final(reader).source@ == old(reader).source@,
        res is Ok <==> zip_entry_at(old(reader).source@, index as int) is Some,
        res matches Ok(e) ==> (e.0@, e.3@) == zip_entry_at(old(reader).source@, index as int).unwrap() && e.1
            == name_is_dir(e.0@),
{
    let mut entry = match reader.archive.by_index(index) {
        Ok(entry) => entry,
        Err(error) => return Err(error.to_string()),
    };
    let name = match entry.name() {
        Ok(name) => name.to_string(),
        Err(error) => return Err(error.to_string()),
    };
    let mut data = Vec::new();
    match entry.read_to_end(&mut data) {
        Ok(_) => Ok((name, entry.is_dir(), entry.compression(), data)),
        Err(error) => Err(error.to_string()),
    }
}

/// `ZipWriter::new` over an empty in-memory cursor. Claimed: it holds no entries.
#[verifier::external_body]
fn zip_writer() -> (res: PackageWriter)
    ensures
        written_entries(res) == Seq::<PartView>::empty(),
{
    PackageWriter { writer: ZipWriter::new(Cursor::new(Vec::new())) }
}

/// `ZipWriter::start_file` with default options and `compression`, then
/// `write_all` of `data`, with the error's text. Claimed: on success the
/// writer holds one more entry, with this name and these bytes.
#[verifier::external_body]
fn zip_add(
    writer: &mut PackageWriter,
    name: String,
    compression: CompressionMethod,
    data: &[u8],
) -> (res: core::result::Result<(), String>)
    ensures
        res is Ok ==> written_entries(*final(writer)) == written_entries(*old(writer)).push((name@, data@)),
{
    match writer.writer.start_file(name, SimpleFileOptions::default().compression_method(compression)) {
        Ok(()) => {},
        Err(error) => return Err(error.to_string()),
    }
    match writer.writer.write_all(data) {
        Ok(()) => Ok(()),
        Err(error) => Err(error.to_string()),
    }
}

/// `ZipWriter::finish`, then the written bytes, with the error's text.
/// Claimed: the bytes read back as an archive whose files are the entries
/// given, in order, when no entry name is a directory name. Nothing more is
/// claimed of the bytes: entries carry the time of writing.
#[verifier::external_body]
fn zip_finish(writer: PackageWriter) -> (res: core::result::Result<Vec<u8>, String>)
    ensures
        res matches Ok(b) ==> (no_dir_names(written_entries(writer)) ==> zip_files(b@) == Some(written_entries(writer))),
{
    match writer.writer.finish() {
        Ok(cursor) => Ok(cursor.into_inner()),
        Err(error) => Err(error.to_string()),
    }
}

/// The name of the main document part of a DOCX package.
pub open spec fn document_part_name() -> Seq<char> {
    "word/document.xml"@
}

/// Once an entry cannot be read, the files of more entries cannot be either.
proof fn lemma_files_fail(data: Seq<u8>, k: int, n: int)
    requires
        0 <= k <= n,
        files_upto(data, k) is None,
    ensures
        files_upto(data, n) is None,
    decreases n - k,
{
    if k < n {
        lemma_files_fail(data, k, n - 1);
    }
}

/// Reads the file entries of an in-memory ZIP package, in archive order,
/// skipping directory entries.
pub fn read_package(data: Vec<u8>) -> (res: Result<Vec<PackagePart>, String>)
    ensures
        res is Ok <==> zip_files(data@) is Some,
        res matches Ok(v) ==> parts_view(v@) == zip_files(data@).unwrap(),
{
    let ghost source = data@;
    let archive = zip_open(data)?;
    let mut reader = PackageReader { archive, source: Ghost(source) };
    let count = zip_entry_count(&reader);
    let mut parts: Vec<PackagePart> = Vec::new();
    let mut index: usize = 0;
    while index < count
        invariant
            index <= count,
            count == zip_len(source),
            zip_opens(source),
            source == data@,
            reader.source@ == source,
            files_upto(source, index as int) == Some(parts_view(parts@)),
        decreases count - index,
    {
        let (name, is_dir, compression, bytes) = match zip_entry(&mut reader, index) {
            Ok(e) => e,
            Err(error) => {
                proof {
                    lemma_files_fail(source, index as int + 1, count as int);
                }
                return Err(error);
            },
        };
        if !is_dir {
            let ghost before = parts@;
            parts.push(PackagePart { name, compression, data: bytes });
            proof {
                assert(parts_view(parts@) =~= parts_view(before).push((name@, bytes@)));
            }
        }
        index = index + 1;
    }
    Ok(parts)
}

/// Writes `parts`, in order, as an in-memory ZIP package.
pub fn write_package(parts: Vec<PackagePart>) -> (res: Result<Vec<u8>, String>)
    ensures
        res matches Ok(b) ==> (no_dir_names(parts_view(parts@)) ==> zip_files(b@) == Some(parts_view(parts@))),
{
    let ghost view = parts_view(parts@);
    let mut rest = reverse_parts(parts);
    let mut writer = zip_writer();
    let ghost n = rest@.len();
    while rest.len() > 0
        invariant
            rest@.len() <= n,
            n == view.len(),
            forall|i: int| 0 <= i < rest@.len() ==> (#[trigger] rest@[i]).name@ == view[n - 1 - i].0 && rest@[i].data@
                == view[n - 1 - i].1,
            written_entries(writer) == view.take(n - rest@.len()),
        decreases rest@.len(),
    {
        let ghost m = rest@.len();
        let part = rest.pop().unwrap();
        let ghost before = written_entries(writer);
        zip_add(&mut writer, part.name, part.compression, part.data.as_slice())?;
        proof {
            assert(view.take(n - m + 1) =~= view.take(n - m).push(view[n - m]));
        }
    }
    proof {
        assert(view.take(n as int) =~= view);
    }
    zip_finish(writer)
}

/// Whether `after` is `before` with the data of each main document part
/// replaced by its table-layout patch under `fixed` and `heights`.
pub open spec fn layout_parts(
    before: Seq<PackagePart>,
    after: Seq<PackagePart>,
    fixed: Seq<bool>,
    heights: Seq<RowHeightPatch>,
) -> bool {
    &&& after.len() == before.len()
    &&& forall|i: int|
        0 <= i < before.len() ==> {
            &&& (#[trigger] after[i]).name@ == before[i].name@
            &&& after[i].compression == before[i].compression
            &&& after[i].data@ == if before[i].name@ == document_part_name() {
                document_patch(before[i].data@, fixed, heights).unwrap()
            } else {
                before[i].data@
            }
        }
}

/// Whether the table-layout rewrite of `parts` succeeds: some part is the
/// main document, and every main document part can be patched.
pub open spec fn layout_parts_ok(parts: Seq<PackagePart>, fixed: Seq<bool>, heights: Seq<RowHeightPatch>) -> bool {
    &&& exists|i: int| 0 <= i < parts.len() && (#[trigger] parts[i]).name@ == document_part_name()
    &&& forall|i: int|
        0 <= i < parts.len() && (#[trigger] parts[i]).name@ == document_part_name() ==> document_patch(
            parts[i].data@,
            fixed,
            heights,
        ) is Some
}

/// Whether `s` is the main document part's name.
fn is_document_part(s: &str) -> (res: bool)
    ensures
        res == (s@ == document_part_name()),
{
    proof {
        reveal_strlit("word/document.xml");
    }
    crate::document::str_equal(s, "word/document.xml")
}

/// Adds fixed table layouts and row heights to the main document part of
/// package `parts`, keeping every other part as it is.
#[verifier::loop_isolation(false)]
pub fn add_table_layout_to_parts(parts: Vec<PackagePart>, fixed: &[bool], heights: &[RowHeightPatch]) -> (res: Result<
    Vec<PackagePart>,
    String,
>)
    ensures
        res is Ok <==> layout_parts_ok(parts@, fixed@, heights@),
        res matches Ok(v) ==> layout_parts(parts@, v@, fixed@, heights@),
{
    let ghost before = parts@;
    let mut parts = parts;
    let mut reversed: Vec<PackagePart> = Vec::new();
    while parts.len() > 0
        invariant
            reversed@.len() + parts@.len() == before.len(),
            parts@ == before.take(parts@.len() as int),
            forall|i: int| 0 <= i < reversed@.len() ==> #[trigger] reversed@[i] == before[before.len() - 1 - i],
        decreases parts@.len(),
    {
        let ghost n = parts@.len();
        let part = parts.pop().unwrap();
        assert(part == before[n - 1]);
        reversed.push(part);
        assert(parts@ =~= before.take(n - 1));
    }
    let mut out: Vec<PackagePart> = Vec::new();
    let mut found = false;
    while reversed.len() > 0
        invariant
            reversed@.len() + out@.len() == before.len(),
            forall|i: int| 0 <= i < reversed@.len() ==> #[trigger] reversed@[i] == before[before.len() - 1 - i],
            layout_parts(before.take(out@.len() as int), out@, fixed@, heights@),
            forall|i: int|
                0 <= i < out@.len() && (#[trigger] before[i]).name@ == document_part_name() ==> document_patch(
                    before[i].data@,
                    fixed@,
                    heights@,
                ) is Some,
            found <==> exists|i: int| 0 <= i < out@.len() && (#[trigger] before[i]).name@ == document_part_name(),
        decreases reversed@.len(),
    {
        let ghost k = out@.len() as int;
        let part = reversed.pop().unwrap();
        assert(part == before[k]);
        let PackagePart { name, compression, data } = part;
        let data = if is_document_part(name.as_str()) {
            found = true;
            match patch_document_xml(data.as_slice(), fixed, heights) {
                Ok(patched) => patched,
                Err(error) => {
                    proof {
                        assert(before[k].name@ == document_part_name());
                        assert(document_patch(before[k].data@, fixed@, heights@) is None);
                        assert(0 <= k < before.len());
                        assert(!layout_parts_ok(before, fixed@, heights@));
                    }
                    return Err(error);
                },
            }
        } else {
            data
        };
        let ghost prev = out@;
        out.push(PackagePart { name, compression, data });
        proof {
            assert forall|i: int| 0 <= i < k + 1 implies {
                &&& (#[trigger] out@[i]).name@ == before.take(k + 1)[i].name@
                &&& out@[i].compression == before.take(k + 1)[i].compression
                &&& out@[i].data@ == if before.take(k + 1)[i].name@ == document_part_name() {
                    document_patch(before.take(k + 1)[i].data@, fixed@, heights@).unwrap()
                } else {
                    before.take(k + 1)[i].data@
                }
            } by {
                if i < k {
                    assert(out@[i] == prev[i]);
                    assert(before.take(k + 1)[i] == before.take(k)[i]);
                }
            }
            if found {
                assert(exists|i: int| 0 <= i < out@.len() && (#[trigger] before[i]).name@ == document_part_name()) by {
                    if before[k].name@ == document_part_name() {
                    } else {
                        let j = choose|j: int| 0 <= j < k && (#[trigger] before[j]).name@ == document_part_name();
                        assert(0 <= j < out@.len());
                    }
                }
            }
        }
    }
    if !found {
        return Err(message("generated DOCX is missing word/document.xml"));
    }
    proof {
        assert(before.take(out@.len() as int) =~= before);
    }
    Ok(out)
}

/// Adds fixed table layouts and row heights to the main document part of an
/// in-memory DOCX package: reads its parts, rewrites them, and writes them back.
pub fn add_table_layout_package(docx: Vec<u8>, fixed: &[bool], heights: &[RowHeightPatch]) -> (res: Result<
    Vec<u8>,
    String,
>)
    ensures
        zip_files(docx@) is None ==> res is Err,
        (zip_files(docx@) matches Some(p) && !layout_ok_view(p, fixed@, heights@)) ==> res is Err,
        res matches Ok(b) ==> (zip_files(docx@) matches Some(p) && layout_ok_view(p, fixed@, heights@) && zip_files(b@)
            == Some(layout_view(p, fixed@, heights@))),
{
    let ghost source = docx@;
    let parts = read_package(docx)?;
    proof {
        lemma_files_no_dirs(source, zip_len(source) as int);
        lemma_layout_view(parts@, fixed@, heights@);
    }
    let ghost before = parts@;
    let patched = add_table_layout_to_parts(parts, fixed, heights)?;
    proof {
        lemma_layout_result(before, patched@, fixed@, heights@);
    }
    write_package(patched)
}

/// The files of `v` with the main document part's bytes replaced by its
/// table-layout patch under `fixed` and `heights`.
pub open spec fn layout_view(v: Seq<PartView>, fixed: Seq<bool>, heights: Seq<RowHeightPatch>) -> Seq<PartView> {
    v.map_values(
        |e: PartView|
            if e.0 == document_part_name() {
                (e.0, document_patch(e.1, fixed, heights).unwrap())
            } else {
                e
            },
    )
}

/// Whether the table-layout rewrite of files `v` succeeds: some file is the
/// main document, and every main document file can be patched.
pub open spec fn layout_ok_view(v: Seq<PartView>, fixed: Seq<bool>, heights: Seq<RowHeightPatch>) -> bool {
    &&& exists|i: int| 0 <= i < v.len() && (#[trigger] v[i]).0 == document_part_name()
    &&& forall|i: int|
        0 <= i < v.len() && (#[trigger] v[i]).0 == document_part_name() ==> document_patch(v[i].1, fixed, heights) is Some
}

/// The files an archive reads to never have directory names.
proof fn lemma_files_no_dirs(data: Seq<u8>, n: int)
    ensures
        files_upto(data, n) matches Some(fs) ==> no_dir_names(fs),
    decreases n,
{
    if n > 0 {
        lemma_files_no_dirs(data, n - 1);
        if let Some(fs) = files_upto(data, n) {
            let prev = files_upto(data, n - 1).unwrap();
            assert forall|i: int| 0 <= i < fs.len() implies !name_is_dir(#[trigger] fs[i].0) by {
                if i < prev.len() {
                    assert(fs[i] == prev[i]);
                }
            }
        }
    }
}

/// The table-layout condition on parts is the one on their views.
proof fn lemma_layout_view(ps: Seq<PackagePart>, fixed: Seq<bool>, heights: Seq<RowHeightPatch>)
    ensures
        layout_parts_ok(ps, fixed, heights) <==> layout_ok_view(parts_view(ps), fixed, heights),
{
    let v = parts_view(ps);
    assert forall|i: int| 0 <= i < ps.len() implies #[trigger] v[i] == (ps[i].name@, ps[i].data@) by {}
    if layout_parts_ok(ps, fixed, heights) {
        let j = choose|j: int| 0 <= j < ps.len() && (#[trigger] ps[j]).name@ == document_part_name();
        assert(v[j] == (ps[j].name@, ps[j].data@));
        assert forall|i: int| 0 <= i < v.len() && (#[trigger] v[i]).0 == document_part_name() implies document_patch(
            v[i].1,
            fixed,
            heights,
        ) is Some by {
            assert(v[i] == (ps[i].name@, ps[i].data@));
        }
    }
    if layout_ok_view(v, fixed, heights) {
        let j = choose|j: int| 0 <= j < v.len() && (#[trigger] v[j]).0 == document_part_name();
        assert(v[j] == (ps[j].name@, ps[j].data@));
        assert forall|i: int| 0 <= i < ps.len() && (#[trigger] ps[i]).name@ == document_part_name() implies document_patch(
            ps[i].data@,
            fixed,
            heights,
        ) is Some by {
            assert(v[i] == (ps[i].name@, ps[i].data@));
        }
    }
}

/// Rewritten parts view as the rewrite of the files, and keep their names.
proof fn lemma_layout_result(before: Seq<PackagePart>, after: Seq<PackagePart>, fixed: Seq<bool>, heights: Seq<RowHeightPatch>)
    requires
        layout_parts(before, after, fixed, heights),
    ensures
        parts_view(after) == layout_view(parts_view(before), fixed, heights),
        no_dir_names(parts_view(before)) ==> no_dir_names(parts_view(after)),
{
    let a = parts_view(after);
    let b = layout_view(parts_view(before), fixed, heights);
    assert forall|i: int| 0 <= i < a.len() implies a[i] == b[i] by {
        assert(a[i] == (after[i].name@, after[i].data@));
        assert(parts_view(before)[i] == (before[i].name@, before[i].data@));
    }
    assert(a =~= b);
    if no_dir_names(parts_view(before)) {
        assert forall|i: int| 0 <= i < a.len() implies !name_is_dir(#[trigger] a[i].0) by {
            assert(parts_view(before)[i] == (before[i].name@, before[i].data@));
            assert(!name_is_dir(parts_view(before)[i].0));
        }
    }
}

/// The name of the stylesheet part of an XLSX package.
pub open spec fn styles_part_name() -> Seq<char> {
    "xl/styles.xml"@
}

/// The worksheet (`suffix` `.xml`) or worksheet-relationships (`.xml.rels`)
/// index that part name `name` selects, when it is not the stylesheet.
pub open spec fn part_sheet(name: Seq<char>, rels: bool) -> Option<usize> {
    if name == styles_part_name() {
        None
    } else if !rels {
        worksheet_index_of(name, ".xml"@)
    } else if worksheet_index_of(name, ".xml"@) is Some {
        None
    } else {
        worksheet_index_of(name, ".xml.rels"@)
    }
}

/// The rewritten bytes of part `name` holding `data` under workbook `w`:
/// the source stylesheet, a patched worksheet, patched worksheet
/// relationships, or the data unchanged; `None` when a patch fails.
#[verifier::opaque]
pub open spec fn fidelity_data(name: Seq<char>, data: Seq<u8>, w: WorkbookFormatting, numbers: Seq<HashMap<u32, String>>) -> Option<
    Seq<u8>,
> {
    if name == styles_part_name() {
        Some(encode_utf8(styles_text(w)))
    } else if part_sheet(name, false) is Some {
        let k = part_sheet(name, false).unwrap() as int;
        if k < w.sheets@.len() {
            worksheet_patch(data, w.sheets@[k], numbers[k]@)
        } else {
            Some(data)
        }
    } else if part_sheet(name, true) is Some {
        let k = part_sheet(name, true).unwrap() as int;
        if k < w.sheets@.len() {
            relationships_patch(data, w.sheets@[k])
        } else {
            Some(data)
        }
    } else {
        Some(data)
    }
}

/// Whether some part of `parts` selects sheet `k` (as a worksheet, or with
/// `rels` as its relationships).
pub open spec fn names_sheet(parts: Seq<PartView>, k: int, rels: bool) -> bool {
    names_sheet_within(parts, parts.len() as int, k, rels)
}

/// Whether one of the first `m` parts of `parts` selects sheet `k`.
pub open spec fn names_sheet_within(parts: Seq<PartView>, m: int, k: int, rels: bool) -> bool {
    exists|i: int| 0 <= i < m && part_sheet((#[trigger] parts[i]).0, rels) == Some(k as usize)
}

/// One more part selects sheet `k` when it or an earlier part does.
proof fn lemma_names_step(parts: Seq<PartView>, m: int, k: int, rels: bool)
    requires
        0 <= m < parts.len(),
    ensures
        names_sheet_within(parts, m + 1, k, rels) <==> (names_sheet_within(parts, m, k, rels) || part_sheet(
            parts[m].0,
            rels,
        ) == Some(k as usize)),
{
    if names_sheet_within(parts, m + 1, k, rels) {
        let i = choose|i: int| 0 <= i < m + 1 && part_sheet((#[trigger] parts[i]).0, rels) == Some(k as usize);
    }
}

/// The name of the relationships part of sheet `k`.
pub open spec fn sheet_rels_name(k: int) -> Seq<char> {
    "xl/worksheets/_rels/sheet"@ + decimal((k + 1) as nat) + ".xml.rels"@
}

/// The relationships parts added for the first `n` sheets: one for each sheet
/// with an external hyperlink and no relationships part in `parts`.
pub open spec fn added_rels(parts: Seq<PartView>, w: WorkbookFormatting, n: int) -> Seq<(Seq<char>, Seq<u8>)>
    decreases n,
{
    if n <= 0 {
        seq![]
    } else {
        let before = added_rels(parts, w, n - 1);
        let s = w.sheets@[n - 1];
        if !names_sheet(parts, n - 1, true) && has_external(sheet_links(s)) {
            before.push((sheet_rels_name(n - 1), encode_utf8(new_relationships_text(s))))
        } else {
            before
        }
    }
}

/// Whether the XLSX rewrite of `parts` succeeds: every part's rewrite
/// succeeds, and the stylesheet and every worksheet are present.
pub open spec fn fidelity_ok(parts: Seq<PartView>, w: WorkbookFormatting, numbers: Seq<HashMap<u32, String>>) -> bool {
    &&& forall|i: int| 0 <= i < parts.len() ==> fidelity_data((#[trigger] parts[i]).0, parts[i].1, w, numbers) is Some
    &&& exists|i: int| 0 <= i < parts.len() && (#[trigger] parts[i]).0 == styles_part_name()
    &&& forall|k: int| 0 <= k < w.sheets@.len() ==> #[trigger] names_sheet(parts, k, false)
}

/// `CompressionMethod::Deflated`.
#[verifier::external_body]
fn deflated() -> CompressionMethod {
    CompressionMethod::Deflated
}

/// The parts of `parts` in reverse order.
fn reverse_parts(parts: Vec<PackagePart>) -> (res: Vec<PackagePart>)
    ensures
        res@.len() == parts@.len(),
        forall|i: int| 0 <= i < res@.len() ==> #[trigger] res@[i] == parts@[parts@.len() - 1 - i],
{
    let ghost before = parts@;
    let mut rest = parts;
    let mut reversed: Vec<PackagePart> = Vec::new();
    while rest.len() > 0
        invariant
            reversed@.len() + rest@.len() == before.len(),
            rest@ == before.take(rest@.len() as int),
            forall|i: int| 0 <= i < reversed@.len() ==> #[trigger] reversed@[i] == before[before.len() - 1 - i],
        decreases rest@.len(),
    {
        let ghost m = rest@.len();
        let part = rest.pop().unwrap();
        assert(part == before[m - 1]);
        reversed.push(part);
        assert(rest@ =~= before.take(m - 1));
    }
    reversed
}

/// The sheet that part name `name` selects (see `part_sheet`).
fn part_sheet_of(name: &str, rels: bool) -> (res: Option<usize>)
    ensures
        res == part_sheet(name@, rels),
{
    proof {
        reveal_strlit("xl/styles.xml");
        reveal_strlit(".xml");
        reveal_strlit(".xml.rels");
    }
    if crate::document::str_equal(name, "xl/styles.xml") {
        None
    } else if !rels {
        worksheet_index(name, ".xml")
    } else if worksheet_index(name, ".xml").is_some() {
        None
    } else {
        worksheet_index(name, ".xml.rels")
    }
}

/// The rewrite of one part (see `fidelity_data`).
fn rewrite_part(
    name: String,
    compression: CompressionMethod,
    data: Vec<u8>,
    workbook: &WorkbookFormatting,
    numbers: &Vec<HashMap<u32, String>>,
) -> (res: Result<PackagePart, String>)
    requires
        workbook.fonts@.len() < usize::MAX,
        numbers@.len() == workbook.sheets@.len(),
    ensures
        res is Ok <==> fidelity_data(name@, data@, *workbook, numbers@) is Some,
        res matches Ok(p) ==> p.name@ == name@ && p.compression == compression && fidelity_data(
            name@,
            data@,
            *workbook,
            numbers@,
        ) == Some(p.data@),
{
    proof {
        reveal_strlit("xl/styles.xml");
        reveal(fidelity_data);
    }
    let n = workbook.sheets.len();
    if crate::document::str_equal(name.as_str(), "xl/styles.xml") {
        let text = styles_xml(workbook);
        return Ok(PackagePart { name, compression, data: text.as_str().as_bytes_vec() });
    }
    if let Some(i) = part_sheet_of(name.as_str(), false) {
        if i < n {
            let patched = patch_worksheet(data.as_slice(), &workbook.sheets[i], &numbers[i])?;
            return Ok(PackagePart { name, compression, data: patched });
        }
        return Ok(PackagePart { name, compression, data });
    }
    if let Some(i) = part_sheet_of(name.as_str(), true) {
        if i < n {
            let patched = patch_relationships(data.as_slice(), &workbook.sheets[i])?;
            return Ok(PackagePart { name, compression, data: patched });
        }
    }
    Ok(PackagePart { name, compression, data })
}

/// The rewrite of every part of `reversed` (the parts of `before` in
/// reverse order), with whether the stylesheet, each worksheet and each
/// worksheet's relationships were met.
#[verifier::rlimit(60)]
#[verifier::spinoff_prover]
fn rewrite_parts(
    reversed: Vec<PackagePart>,
    workbook: &WorkbookFormatting,
    numbers: &Vec<HashMap<u32, String>>,
    seen_sheets: Vec<bool>,
    seen_rels: Vec<bool>,
    source: Ghost<Seq<PackagePart>>,
) -> (res: Result<(Vec<PackagePart>, bool, Vec<bool>, Vec<bool>), String>)
    requires
        workbook.fonts@.len() < usize::MAX,
        numbers@.len() == workbook.sheets@.len(),
        reversed@.len() == source@.len(),
        forall|i: int| 0 <= i < reversed@.len() ==> #[trigger] reversed@[i] == source@[source@.len() - 1 - i],
        seen_sheets@.len() == workbook.sheets@.len() && seen_rels@.len() == workbook.sheets@.len(),
        forall|k: int| 0 <= k < seen_sheets@.len() ==> !seen_sheets@[k] && !seen_rels@[k],
    ensures
        res is Ok <==> forall|i: int|
            0 <= i < source@.len() ==> fidelity_data((#[trigger] source@[i]).name@, source@[i].data@, *workbook, numbers@)
                is Some,
        res matches Ok(r) ==> {
            let (out, seen_styles, seen_sheets, seen_rels) = r;
            &&& out@.len() == source@.len()
            &&& forall|i: int|
                0 <= i < out@.len() ==> (#[trigger] out@[i]).name@ == source@[i].name@ && out@[i].compression
                    == source@[i].compression && fidelity_data(source@[i].name@, source@[i].data@, *workbook, numbers@)
                    == Some(out@[i].data@)
            &&& seen_sheets@.len() == workbook.sheets@.len() && seen_rels@.len() == workbook.sheets@.len()
            &&& seen_styles <==> exists|i: int| 0 <= i < source@.len() && (#[trigger] source@[i]).name@ == styles_part_name()
            &&& forall|k: int|
                0 <= k < workbook.sheets@.len() ==> (seen_sheets@[k] <==> names_sheet(parts_view(source@), k, false))
            &&& forall|k: int|
                0 <= k < workbook.sheets@.len() ==> (seen_rels@[k] <==> names_sheet(parts_view(source@), k, true))
        },
{
    let ghost before = source@;
    let n = workbook.sheets.len();
    let mut reversed = reversed;
    let mut seen_sheets = seen_sheets;
    let mut seen_rels = seen_rels;
    proof {
        assert forall|k: int| 0 <= k < n implies !names_sheet_within(parts_view(before), 0, k, false) && !names_sheet_within(
            parts_view(before),
            0,
            k,
            true,
        ) by {}
    }
    let mut seen_styles = false;
    let mut out: Vec<PackagePart> = Vec::new();
    while reversed.len() > 0
        invariant
            before == source@,
            n == workbook.sheets@.len(),
            workbook.fonts@.len() < usize::MAX,
            numbers@.len() == workbook.sheets@.len(),
            reversed@.len() + out@.len() == before.len(),
            forall|i: int| 0 <= i < reversed@.len() ==> #[trigger] reversed@[i] == before[before.len() - 1 - i],
            forall|i: int|
                0 <= i < out@.len() ==> (#[trigger] out@[i]).name@ == before[i].name@ && out@[i].compression
                    == before[i].compression && fidelity_data(before[i].name@, before[i].data@, *workbook, numbers@)
                    == Some(out@[i].data@),
            seen_sheets@.len() == n && seen_rels@.len() == n,
            seen_styles <==> exists|i: int| 0 <= i < out@.len() && (#[trigger] before[i]).name@ == styles_part_name(),
            forall|k: int|
                0 <= k < n ==> (seen_sheets@[k] <==> names_sheet_within(parts_view(before), out@.len() as int, k, false)),
            forall|k: int|
                0 <= k < n ==> (seen_rels@[k] <==> names_sheet_within(parts_view(before), out@.len() as int, k, true)),
        decreases reversed@.len(),
    {
        let ghost k = out@.len() as int;
        let part = reversed.pop().unwrap();
        assert(part == before[k]);
        let PackagePart { name, compression, data } = part;
        proof {
            reveal_strlit("xl/styles.xml");
        }
        if crate::document::str_equal(name.as_str(), "xl/styles.xml") {
            seen_styles = true;
        }
        let sheet_index = part_sheet_of(name.as_str(), false);
        let rels_index = part_sheet_of(name.as_str(), true);
        if let Some(i) = sheet_index {
            if i < n {
                seen_sheets.set(i, true);
            }
        }
        if let Some(i) = rels_index {
            if i < n {
                seen_rels.set(i, true);
            }
        }
        let rewritten = match rewrite_part(name, compression, data, workbook, numbers) {
            Ok(p) => p,
            Err(error) => {
                proof {
                    assert(fidelity_data(before[k].name@, before[k].data@, *workbook, numbers@) is None);
                }
                return Err(error);
            },
        };
        let ghost prev = out@;
        out.push(rewritten);
        proof {
            let t = before.take(k + 1);
            assert forall|i: int| 0 <= i < out@.len() implies (#[trigger] out@[i]).name@ == before[i].name@
                && out@[i].compression == before[i].compression && fidelity_data(
                before[i].name@,
                before[i].data@,
                *workbook,
                numbers@,
            ) == Some(out@[i].data@) by {
                if i < k {
                    assert(out@[i] == prev[i]);
                }
            }
            if seen_styles {
                assert(exists|i: int| 0 <= i < out@.len() && (#[trigger] before[i]).name@ == styles_part_name()) by {
                    if before[k].name@ != styles_part_name() {
                        let j = choose|j: int| 0 <= j < k && (#[trigger] before[j]).name@ == styles_part_name();
                        assert(0 <= j < out@.len());
                    }
                }
            }
            assert(parts_view(before)[k] == (before[k].name@, before[k].data@));
            assert forall|s: int| 0 <= s < n implies (seen_sheets@[s] <==> names_sheet_within(
                parts_view(before),
                k + 1,
                s,
                false,
            )) && (seen_rels@[s] <==> names_sheet_within(parts_view(before), k + 1, s, true)) by {
                lemma_names_step(parts_view(before), k, s, false);
                lemma_names_step(parts_view(before), k, s, true);
            }
        }
    }
    assert forall|i: int| 0 <= i < before.len() implies fidelity_data(
        (#[trigger] before[i]).name@,
        before[i].data@,
        *workbook,
        numbers@,
    ) is Some by {
        assert(fidelity_data(before[i].name@, before[i].data@, *workbook, numbers@) == Some(out@[i].data@));
    }
    Ok((out, seen_styles, seen_sheets, seen_rels))
}

/// Appends to `out` (the rewritten parts of `before`) the relationships parts
/// of the sheets with external links and no relationships part.
#[verifier::rlimit(60)]
#[verifier::spinoff_prover]
fn append_added_rels(
    out: &mut Vec<PackagePart>,
    workbook: &WorkbookFormatting,
    seen_rels: &Vec<bool>,
    before: Ghost<Seq<PackagePart>>,
    numbers: Ghost<Seq<HashMap<u32, String>>>,
)
    requires
        old(out)@.len() == before@.len(),
        seen_rels@.len() == workbook.sheets@.len(),
        forall|k: int| 0 <= k < workbook.sheets@.len() ==> (seen_rels@[k] <==> names_sheet(parts_view(before@), k, true)),
        forall|i: int|
            0 <= i < old(out)@.len() ==> (#[trigger] old(out)@[i]).name@ == before@[i].name@ && old(out)@[i].compression
                == before@[i].compression && fidelity_data(before@[i].name@, before@[i].data@, *workbook, numbers@)
                == Some(old(out)@[i].data@),
    ensures
        ({
            let added = added_rels(parts_view(before@), *workbook, workbook.sheets@.len() as int);
            &&& final(out)@.len() == before@.len() + added.len()
            &&& forall|i: int|
                0 <= i < before@.len() ==> (#[trigger] final(out)@[i]).name@ == before@[i].name@ && final(out)@[i].compression
                    == before@[i].compression && fidelity_data(before@[i].name@, before@[i].data@, *workbook, numbers@)
                    == Some(final(out)@[i].data@)
            &&& forall|j: int|
                0 <= j < added.len() ==> (#[trigger] final(out)@[before@.len() + j]).name@ == added[j].0 && final(out)@[before@.len()
                    + j].data@ == added[j].1
        }),
{
    let ghost before = before@;
    let n = workbook.sheets.len();
    let ghost base = out@.len();
    let mut s: usize = 0;
    while s < n
        invariant
            n == workbook.sheets@.len(),
            s <= n,
            base == before.len(),
            seen_rels@.len() == n,
            forall|k: int| 0 <= k < n ==> (seen_rels@[k] <==> names_sheet(parts_view(before), k, true)),
            out@.len() == base + added_rels(parts_view(before), *workbook, s as int).len(),
            forall|i: int|
                0 <= i < base ==> (#[trigger] out@[i]).name@ == before[i].name@ && out@[i].compression
                    == before[i].compression && fidelity_data(before[i].name@, before[i].data@, *workbook, numbers@)
                    == Some(out@[i].data@),
            forall|j: int|
                0 <= j < added_rels(parts_view(before), *workbook, s as int).len() ==> (#[trigger] out@[base + j]).name@
                    == added_rels(parts_view(before), *workbook, s as int)[j].0 && out@[base + j].data@ == added_rels(
                    parts_view(before),
                    *workbook,
                    s as int,
                )[j].1,
        decreases n - s,
    {
        let sheet = &workbook.sheets[s];
        let ghost prev = out@;
        let ghost a0 = added_rels(parts_view(before), *workbook, s as int);
        if !seen_rels[s] && has_external_hyperlinks(sheet) {
            let mut name = message("xl/worksheets/_rels/sheet");
            crate::text::append_decimal(&mut name, s as u64 + 1);
            crate::text::append_str(&mut name, ".xml.rels");
            proof {
                reveal_strlit("xl/worksheets/_rels/sheet");
                reveal_strlit(".xml.rels");
            }
            let text = new_relationships(sheet);
            out.push(PackagePart { name, compression: deflated(), data: text.as_str().as_bytes_vec() });
            proof {
                let a = added_rels(parts_view(before), *workbook, s as int + 1);
                assert(a == a0.push((sheet_rels_name(s as int), encode_utf8(new_relationships_text(*sheet)))));
                assert forall|i: int| 0 <= i < base implies (#[trigger] out@[i]).name@ == before[i].name@
                    && out@[i].compression == before[i].compression && fidelity_data(
                    before[i].name@,
                    before[i].data@,
                    *workbook,
                    numbers@,
                ) == Some(out@[i].data@) by {
                    assert(out@[i] == prev[i]);
                }
                assert forall|j: int| 0 <= j < a.len() implies (#[trigger] out@[base + j]).name@ == a[j].0
                    && out@[base + j].data@ == a[j].1 by {
                    if j < a.len() - 1 {
                        assert(out@[base + j] == prev[base + j]);
                    }
                }
            }
        } else {
            proof {
                assert(added_rels(parts_view(before), *workbook, s as int + 1) == a0);
            }
        }
        s = s + 1;
    }
}

/// Rewrites the parts of a generated XLSX package with the source
/// workbook's stylesheet and each source sheet's formatting (`numbers` holds
/// each sheet's source number texts) and hyperlink relationships, adding a
/// relationships part for each sheet that has external links and none.
pub fn add_xls_fidelity_to_parts(
    parts: Vec<PackagePart>,
    workbook: &WorkbookFormatting,
    numbers: &Vec<HashMap<u32, String>>,
) -> (res: Result<Vec<PackagePart>, String>)
    requires
        workbook.fonts@.len() < usize::MAX,
        numbers@.len() == workbook.sheets@.len(),
    ensures
        res is Ok <==> fidelity_ok(parts_view(parts@), *workbook, numbers@),
        res matches Ok(v) ==> {
            let added = added_rels(parts_view(parts@), *workbook, workbook.sheets@.len() as int);
            &&& v@.len() == parts@.len() + added.len()
            &&& forall|i: int|
                0 <= i < parts@.len() ==> (#[trigger] v@[i]).name@ == parts@[i].name@ && v@[i].compression
                    == parts@[i].compression && fidelity_data(
                    parts@[i].name@,
                    parts@[i].data@,
                    *workbook,
                    numbers@,
                ) == Some(v@[i].data@)
            &&& forall|j: int|
                0 <= j < added.len() ==> (#[trigger] v@[parts@.len() + j]).name@ == added[j].0 && v@[parts@.len()
                    + j].data@ == added[j].1
        },
{
    let ghost before = parts@;
    let n = workbook.sheets.len();
    let reversed = reverse_parts(parts);
    let mut seen_sheets: Vec<bool> = Vec::new();
    let mut seen_rels: Vec<bool> = Vec::new();
    while seen_sheets.len() < n
        invariant
            seen_sheets@.len() == seen_rels@.len(),
            seen_sheets@.len() <= n,
            forall|k: int| 0 <= k < seen_sheets@.len() ==> !seen_sheets@[k] && !seen_rels@[k],
        decreases n - seen_sheets@.len(),
    {
        seen_sheets.push(false);
        seen_rels.push(false);
    }
    let (mut out, seen_styles, seen_sheets, seen_rels) = match rewrite_parts(
        reversed,
        workbook,
        numbers,
        seen_sheets,
        seen_rels,
        Ghost(before),
    ) {
        Ok(r) => r,
        Err(error) => {
            proof {
                let i = choose|i: int|
                    0 <= i < before.len() && !(fidelity_data(
                        (#[trigger] before[i]).name@,
                        before[i].data@,
                        *workbook,
                        numbers@,
                    ) is Some);
                assert(parts_view(before)[i] == (before[i].name@, before[i].data@));
            }
            return Err(error);
        },
    };
    let mut all_sheets = true;
    let mut s: usize = 0;
    while s < n
        invariant
            s <= n,
            seen_sheets@.len() == n,
            all_sheets <==> forall|j: int| 0 <= j < s ==> seen_sheets@[j],
        decreases n - s,
    {
        if !seen_sheets[s] {
            all_sheets = false;
        }
        s = s + 1;
    }
    if !seen_styles || !all_sheets {
        proof {
            if !all_sheets {
                let j = choose|j: int| 0 <= j < n && !seen_sheets@[j];
                assert(!names_sheet(parts_view(before), j, false));
            }
            if !seen_styles {
                assert forall|i: int| 0 <= i < before.len() implies (#[trigger] parts_view(before)[i]).0
                    != styles_part_name() by {
                    assert(parts_view(before)[i] == (before[i].name@, before[i].data@));
                }
            }
        }
        return Err(message("generated XLSX is missing styles.xml or a worksheet part"));
    }
    append_added_rels(&mut out, workbook, &seen_rels, Ghost(before), Ghost(numbers@));
    proof {
        let v = parts_view(before);
        assert forall|i: int| 0 <= i < v.len() implies fidelity_data((#[trigger] v[i]).0, v[i].1, *workbook, numbers@)
            is Some by {
            assert(v[i] == (before[i].name@, before[i].data@));
            assert(fidelity_data(before[i].name@, before[i].data@, *workbook, numbers@) is Some);
        }
        let j = choose|j: int| 0 <= j < before.len() && (#[trigger] before[j]).name@ == styles_part_name();
        assert(v[j] == (before[j].name@, before[j].data@));
        assert forall|k: int| 0 <= k < workbook.sheets@.len() implies #[trigger] names_sheet(v, k, false) by {
            assert(seen_sheets@[k]);
        }
    }
    Ok(out)
}

/// Rewrites a generated XLSX package with the source workbook's styles and
/// each source sheet's formatting and hyperlink relationships; a workbook
/// with no sheets or no cell formats leaves it as it is.
pub fn add_xls_fidelity_package(
    xlsx: Vec<u8>,
    workbook: &WorkbookFormatting,
    numbers: &Vec<HashMap<u32, String>>,
) -> (res: Result<Vec<u8>, String>)
    requires
        numbers@.len() == workbook.sheets@.len(),
    ensures
        workbook.sheets@.len() == 0 || workbook.xfs@.len() == 0 ==> res == Ok::<Vec<u8>, String>(xlsx),
        workbook.sheets@.len() > 0 && workbook.xfs@.len() > 0 && workbook.fonts@.len() == usize::MAX ==> (res matches Err(
            m,
        ) && m@ == "source workbook has too many fonts"@),
        workbook.sheets@.len() > 0 && workbook.xfs@.len() > 0 && workbook.fonts@.len() < usize::MAX ==> {
            &&& zip_files(xlsx@) is None ==> res is Err
            &&& (zip_files(xlsx@) matches Some(p) && !fidelity_ok(p, *workbook, numbers@)) ==> res is Err
            &&& res matches Ok(b) ==> (zip_files(xlsx@) matches Some(p) && fidelity_ok(p, *workbook, numbers@) && zip_files(
                b@,
            ) == Some(fidelity_view(p, *workbook, numbers@)))
        },
{
    if workbook.sheets.len() == 0 || workbook.xfs.len() == 0 {
        return Ok(xlsx);
    }
    if workbook.fonts.len() == usize::MAX {
        return Err(message("source workbook has too many fonts"));
    }
    let ghost source = xlsx@;
    let parts = read_package(xlsx)?;
    proof {
        lemma_files_no_dirs(source, zip_len(source) as int);
    }
    let ghost before = parts@;
    let patched = add_xls_fidelity_to_parts(parts, workbook, numbers)?;
    proof {
        lemma_fidelity_result(before, patched@, *workbook, numbers@);
    }
    write_package(patched)
}

/// The files of `v` rewritten under workbook `w`, followed by the
/// relationships files added for its sheets.
pub open spec fn fidelity_view(v: Seq<PartView>, w: WorkbookFormatting, numbers: Seq<HashMap<u32, String>>) -> Seq<
    PartView,
> {
    v.map_values(|e: PartView| (e.0, fidelity_data(e.0, e.1, w, numbers).unwrap())) + added_rels(
        v,
        w,
        w.sheets@.len() as int,
    )
}

/// The relationships files added for sheets have no directory names.
proof fn lemma_added_not_dirs(v: Seq<PartView>, w: WorkbookFormatting, n: int)
    ensures
        no_dir_names(added_rels(v, w, n)),
    decreases n,
{
    reveal_strlit(".xml.rels");
    if n > 0 {
        lemma_added_not_dirs(v, w, n - 1);
        let a = added_rels(v, w, n);
        let prev = added_rels(v, w, n - 1);
        let name = sheet_rels_name(n - 1);
        assert(name.last() == 's');
        assert forall|i: int| 0 <= i < a.len() implies !name_is_dir(#[trigger] a[i].0) by {
            if i < prev.len() {
                assert(a[i] == prev[i]);
            }
        }
    }
}

/// Rewritten XLSX parts view as the rewrite of the files, without directory names.
proof fn lemma_fidelity_result(
    before: Seq<PackagePart>,
    after: Seq<PackagePart>,
    w: WorkbookFormatting,
    numbers: Seq<HashMap<u32, String>>,
)
    requires
        ({
            let added = added_rels(parts_view(before), w, w.sheets@.len() as int);
            &&& after.len() == before.len() + added.len()
            &&& forall|i: int|
                0 <= i < before.len() ==> (#[trigger] after[i]).name@ == before[i].name@ && fidelity_data(
                    before[i].name@,
                    before[i].data@,
                    w,
                    numbers,
                ) == Some(after[i].data@)
            &&& forall|j: int|
                0 <= j < added.len() ==> (#[trigger] after[before.len() + j]).name@ == added[j].0 && after[before.len()
                    + j].data@ == added[j].1
        }),
    ensures
        parts_view(after) == fidelity_view(parts_view(before), w, numbers),
        no_dir_names(parts_view(before)) ==> no_dir_names(parts_view(after)),
{
    let a = parts_view(after);
    let b = fidelity_view(parts_view(before), w, numbers);
    let added = added_rels(parts_view(before), w, w.sheets@.len() as int);
    assert forall|i: int| 0 <= i < a.len() implies a[i] == b[i] by {
        assert(a[i] == (after[i].name@, after[i].data@));
        if i < before.len() {
            assert(parts_view(before)[i] == (before[i].name@, before[i].data@));
        } else {
            let j = i - before.len();
            assert(after[before.len() + j].name@ == added[j].0);
        }
    }
    assert(a =~= b);
    lemma_added_not_dirs(parts_view(before), w, w.sheets@.len() as int);
    if no_dir_names(parts_view(before)) {
        assert forall|i: int| 0 <= i < a.len() implies !name_is_dir(#[trigger] a[i].0) by {
            assert(a[i] == b[i]);
            if i < before.len() {
                assert(parts_view(before)[i] == (before[i].name@, before[i].data@));
                assert(!name_is_dir(parts_view(before)[i].0));
            } else {
                assert(!name_is_dir(added[i - before.len()].0));
            }
        }
    }
}

/// The name of a package's content-type table.
pub open spec fn content_types_name() -> Seq<char> {
    "[Content_Types].xml"@
}

/// The name of the main document part's relationship part.
pub open spec fn document_rels_name() -> Seq<char> {
    "word/_rels/document.xml.rels"@
}

/// A part that a DOCX rewrite adds: its name in the package, its OPC part
/// name, its content type, and the relationship from the main document to
/// it; `what` names it in messages.
pub struct AddedPart {
    pub name: &'static str,
    pub part_name: &'static str,
    pub content_type: &'static str,
    pub rel_id: &'static str,
    pub rel_type: &'static str,
    pub target: &'static str,
    pub what: &'static str,
}

/// (name, OPC part name, content type, relationship Id, relationship type,
/// relationship target) of an added part.
pub type AddedView = (Seq<char>, Seq<char>, Seq<char>, Seq<char>, Seq<char>, Seq<char>);

impl AddedPart {
    /// The added part's names, content type and relationship.
    pub open spec fn added_view(&self) -> AddedView {
        (self.name@, self.part_name@, self.content_type@, self.rel_id@, self.rel_type@, self.target@)
    }
}

/// Whether some file of `v` is named `name`.
pub open spec fn has_part(v: Seq<PartView>, name: Seq<char>) -> bool {
    exists|i: int| 0 <= i < v.len() && (#[trigger] v[i]).0 == name
}

/// Whether the packaging file `e` can take the declaration of and the
/// relationship to added part `a`.
pub open spec fn opc_part_ok(e: PartView, a: AddedView) -> bool {
    &&& e.0 == document_rels_name() ==> can_relate(e.1, a.3, a.4)
    &&& e.0 == content_types_name() ==> can_declare(e.1, a.1)
}

/// Whether `out` is packaging file `e` with the relationship to, or the
/// declaration of, added part `a`; any other file keeps its bytes.
pub open spec fn opc_part_out(e: PartView, a: AddedView, out: Seq<u8>) -> bool {
    if e.0 == document_rels_name() {
        out == related_part(e.1, a.3, a.4, a.5)
    } else if e.0 == content_types_name() {
        declared_part(e.1, a.1, a.2, out)
    } else {
        out == e.1
    }
}

/// The files a rewrite appends after those of package `v`: a relationship
/// part for the main document where `v` has none, then added part `a` with
/// bytes `data`.
pub open spec fn appended_parts(v: Seq<PartView>, a: AddedView, data: Seq<u8>) -> Seq<PartView> {
    if has_part(v, document_rels_name()) {
        seq![(a.0, data)]
    } else {
        seq![(document_rels_name(), single_relationship_part(a.3, a.4, a.5)), (a.0, data)]
    }
}

/// A rewrite that keeps the names of a package's files and appends files
/// that are no directories leaves no directory name.
proof fn lemma_appended_no_dirs(v: Seq<PartView>, w: Seq<PartView>, a: AddedView, data: Seq<u8>)
    requires
        no_dir_names(v),
        w.len() >= v.len(),
        forall|i: int| 0 <= i < v.len() ==> (#[trigger] w[i]).0 == v[i].0,
        w.subrange(v.len() as int, w.len() as int) == appended_parts(v, a, data),
        !name_is_dir(a.0),
    ensures
        no_dir_names(w),
{
    reveal_strlit("word/_rels/document.xml.rels");
    let tail = appended_parts(v, a, data);
    let n = v.len() as int;
    assert(w.len() == n + tail.len()) by {
        assert(w.subrange(n, w.len() as int).len() == tail.len());
    }
    assert forall|i: int| 0 <= i < w.len() implies !name_is_dir(#[trigger] w[i].0) by {
        if i >= n {
            let j = i - n;
            assert(w[i] == w.subrange(n, w.len() as int)[j]);
            if has_part(v, document_rels_name()) {
                assert(tail[j].0 == a.0);
            } else if j == 0 {
                assert(tail[0].0 == document_rels_name());
                assert(document_rels_name().last() == 's');
            } else {
                assert(tail[1].0 == a.0);
            }
        } else {
            assert(!name_is_dir(v[i].0));
        }
    }
}

/// The names of the main document, its relationship part, the content-type
/// table and the comments part differ.
proof fn lemma_part_names_differ()
    ensures
        document_part_name() != document_rels_name(),
        document_part_name() != content_types_name(),
        document_rels_name() != content_types_name(),
        comments_added().0 != document_part_name(),
        comments_added().0 != document_rels_name(),
        comments_added().0 != content_types_name(),
{
    reveal_strlit("word/document.xml");
    reveal_strlit("word/_rels/document.xml.rels");
    reveal_strlit("[Content_Types].xml");
    reveal_strlit("word/comments.xml");
    assert(document_part_name().len() == 17);
    assert(document_rels_name().len() == 28);
    assert(content_types_name().len() == 19);
    assert(comments_added().0.len() == 17);
    assert(document_part_name()[5] == 'd');
    assert(comments_added().0[5] == 'c');
}

/// Whether a part name is the main document relationship part's.
fn is_document_rels(s: &str) -> (res: bool)
    ensures
        res == (s@ == document_rels_name()),
{
    proof {
        reveal_strlit("word/_rels/document.xml.rels");
    }
    str_equal(s, "word/_rels/document.xml.rels")
}

/// Whether a part name is the content-type table's.
fn is_content_types(s: &str) -> (res: bool)
    ensures
        res == (s@ == content_types_name()),
{
    proof {
        reveal_strlit("[Content_Types].xml");
    }
    str_equal(s, "[Content_Types].xml")
}

/// Relates or declares added part `a` in packaging file `name`; any other
/// file keeps its bytes.
fn rewrite_opc_part(name: &str, data: Vec<u8>, a: &AddedPart) -> (res: Result<Vec<u8>, String>)
    ensures
        res is Ok <==> opc_part_ok((name@, data@), a.added_view()),
        res matches Ok(o) ==> opc_part_out((name@, data@), a.added_view(), o@),
{
    proof {
        lemma_part_names_differ();
    }
    if is_document_rels(name) {
        relate_part(data.as_slice(), a.rel_id, a.rel_type, a.target, a.what)
    } else if is_content_types(name) {
        declare_part(data.as_slice(), a.part_name, a.content_type, a.what)
    } else {
        Ok(data)
    }
}

/// `has_part` of one more file.
proof fn lemma_has_part_step(v: Seq<PartView>, k: int, name: Seq<char>)
    requires
        0 <= k < v.len(),
    ensures
        has_part(v.take(k + 1), name) == (has_part(v.take(k), name) || v[k].0 == name),
{
    if has_part(v.take(k + 1), name) {
        let i = choose|i: int| 0 <= i < v.take(k + 1).len() && (#[trigger] v.take(k + 1)[i]).0 == name;
        if i < k {
            assert(v.take(k)[i] == v[i]);
        }
    }
    if has_part(v.take(k), name) {
        let i = choose|i: int| 0 <= i < v.take(k).len() && (#[trigger] v.take(k)[i]).0 == name;
        assert(v.take(k + 1)[i] == v[i]);
    }
    if v[k].0 == name {
        assert(v.take(k + 1)[k] == v[k]);
    }
}

/// The comments part of a DOCX package.
pub open spec fn comments_added() -> AddedView {
    (
        "word/comments.xml"@,
        "/word/comments.xml"@,
        "application/vnd.openxmlformats-officedocument.wordprocessingml.comments+xml"@,
        "rIdZrimoComments"@,
        "http://schemas.openxmlformats.org/officeDocument/2006/relationships/comments"@,
        "comments.xml"@,
    )
}

/// `rel_types::COMMENTS`, the relationship type of a comments part.
#[verifier::external_body]
fn comments_relationship_type() -> (res: &'static str)
    ensures
        res@ == comments_added().4,
{
    office_oxide::core::relationships::rel_types::COMMENTS
}

/// The comments part, with its declaration and relationship.
fn comments_added_part() -> (res: AddedPart)
    ensures
        res.added_view() == comments_added(),
{
    proof {
        reveal_strlit("word/comments.xml");
        reveal_strlit("/word/comments.xml");
        reveal_strlit("application/vnd.openxmlformats-officedocument.wordprocessingml.comments+xml");
        reveal_strlit("rIdZrimoComments");
        reveal_strlit("comments.xml");
    }
    AddedPart {
        name: "word/comments.xml",
        part_name: "/word/comments.xml",
        content_type: "application/vnd.openxmlformats-officedocument.wordprocessingml.comments+xml",
        rel_id: "rIdZrimoComments",
        rel_type: comments_relationship_type(),
        target: "comments.xml",
        what: "comments",
    }
}

/// Whether file `e` of a generated DOCX can take projected comments `cs`:
/// it is no comments part, a main document part takes their markers, and a
/// packaging file takes the comments part's declaration or relationship.
pub open spec fn comment_part_ok(e: PartView, cs: Seq<ProjectedComment>) -> bool {
    &&& e.0 != comments_added().0
    &&& e.0 == document_part_name() ==> comments_document_patch(e.1, cs) is Some
    &&& opc_part_ok(e, comments_added())
}

/// Whether `f` is file `e` rewritten for projected comments `cs`.
pub open spec fn comment_part_out(e: PartView, cs: Seq<ProjectedComment>, f: PartView) -> bool {
    &&& f.0 == e.0
    &&& if e.0 == document_part_name() {
        f.1 == comments_document_patch(e.1, cs).unwrap()
    } else {
        opc_part_out(e, comments_added(), f.1)
    }
}

/// Whether package `v` can take projected comments `cs`: every file can,
/// and it has a main document part and a content-type table.
pub open spec fn comments_rewrite_ok(v: Seq<PartView>, cs: Seq<ProjectedComment>) -> bool {
    &&& forall|i: int| 0 <= i < v.len() ==> comment_part_ok(#[trigger] v[i], cs)
    &&& has_part(v, document_part_name())
    &&& has_part(v, content_types_name())
}

/// Whether `w` is package `v` with projected comments `cs`: each file
/// rewritten in place, then the appended files, the comments part last.
pub open spec fn comments_rewrite(v: Seq<PartView>, cs: Seq<ProjectedComment>, w: Seq<PartView>) -> bool {
    &&& w.len() >= v.len()
    &&& forall|i: int| 0 <= i < v.len() ==> comment_part_out(v[i], cs, #[trigger] w[i])
    &&& w.subrange(v.len() as int, w.len() as int) == appended_parts(v, comments_added(), encode_utf8(comments_part(cs)))
}

/// Adds projected comments `comments` to the parts of a generated DOCX
/// package: their markers in the main document become comment ranges and
/// references, the comments part is declared and related, and appended.
#[verifier::loop_isolation(false)]
#[verifier::rlimit(60)]
#[verifier::spinoff_prover]
pub fn add_comments_to_parts(parts: Vec<PackagePart>, comments: &[ProjectedComment]) -> (res: Result<
    Vec<PackagePart>,
    String,
>)
    ensures
        res is Ok <==> comments_rewrite_ok(parts_view(parts@), comments@),
        res matches Ok(v) ==> comments_rewrite(parts_view(parts@), comments@, parts_view(v@)),
        res matches Ok(v) ==> forall|i: int| 0 <= i < parts@.len() ==> (#[trigger] v@[i]).compression == parts@[i].compression,
{
    proof {
        lemma_part_names_differ();
    }
    let added = comments_added_part();
    let ghost before = parts@;
    let ghost bv = parts_view(before);
    let ghost cs = comments@;
    let mut rest = reverse_parts(parts);
    let mut out: Vec<PackagePart> = Vec::new();
    let mut found_document = false;
    let mut found_content_types = false;
    let mut found_rels = false;
    while rest.len() > 0
        invariant
            rest@.len() + out@.len() == before.len(),
            bv == parts_view(before),
            forall|i: int| 0 <= i < rest@.len() ==> #[trigger] rest@[i] == before[before.len() - 1 - i],
            forall|i: int| 0 <= i < out@.len() ==> comment_part_ok(#[trigger] bv[i], cs),
            forall|i: int| 0 <= i < out@.len() ==> comment_part_out(bv[i], cs, #[trigger] parts_view(out@)[i]),
            forall|i: int| 0 <= i < out@.len() ==> (#[trigger] out@[i]).compression == before[i].compression,
            found_document == has_part(bv.take(out@.len() as int), document_part_name()),
            found_content_types == has_part(bv.take(out@.len() as int), content_types_name()),
            found_rels == has_part(bv.take(out@.len() as int), document_rels_name()),
        decreases rest@.len(),
    {
        let ghost k = out@.len() as int;
        let part = rest.pop().unwrap();
        assert(part == before[k]);
        assert(bv[k] == (part.name@, part.data@));
        proof {
            lemma_has_part_step(bv, k, document_part_name());
            lemma_has_part_step(bv, k, content_types_name());
            lemma_has_part_step(bv, k, document_rels_name());
        }
        let PackagePart { name, compression, data } = part;
        if str_equal(name.as_str(), added.name) {
            assert(!comment_part_ok(bv[k], cs));
            return Err(message("generated DOCX unexpectedly already contains word/comments.xml"));
        }
        let data = if is_document_part(name.as_str()) {
            found_document = true;
            match crate::doc_comments::patch_document_xml(data.as_slice(), comments) {
                Ok(patched) => patched,
                Err(error) => {
                    assert(!comment_part_ok(bv[k], cs));
                    return Err(error);
                },
            }
        } else {
            if is_document_rels(name.as_str()) {
                found_rels = true;
            }
            if is_content_types(name.as_str()) {
                found_content_types = true;
            }
            match rewrite_opc_part(name.as_str(), data, &added) {
                Ok(rewritten) => rewritten,
                Err(error) => {
                    assert(!comment_part_ok(bv[k], cs));
                    return Err(error);
                },
            }
        };
        assert(comment_part_ok(bv[k], cs));
        let ghost prev = out@;
        out.push(PackagePart { name, compression, data });
        proof {
            assert forall|i: int| 0 <= i < out@.len() implies comment_part_ok(#[trigger] bv[i], cs) by {}
            assert forall|i: int| 0 <= i < out@.len() implies comment_part_out(
                bv[i],
                cs,
                #[trigger] parts_view(out@)[i],
            ) by {
                if i < k {
                    assert(parts_view(out@)[i] == parts_view(prev)[i]);
                }
            }
            assert forall|i: int| 0 <= i < out@.len() implies (#[trigger] out@[i]).compression
                == before[i].compression by {
                if i < k {
                    assert(out@[i] == prev[i]);
                }
            }
        }
    }
    proof {
        assert(bv.take(before.len() as int) =~= bv);
    }
    if !found_document || !found_content_types {
        return Err(message("generated DOCX is missing document.xml or [Content_Types].xml"));
    }
    let ghost n = out@.len() as int;
    let ghost kept = parts_view(out@);
    if !found_rels {
        let rels_name = message("word/_rels/document.xml.rels");
        let rels = new_relationship_part(added.rel_id, added.rel_type, added.target);
        out.push(PackagePart { name: rels_name, compression: deflated(), data: rels });
    }
    let text = crate::doc_comments::comments_xml(comments);
    let name = message(added.name);
    out.push(PackagePart { name, compression: deflated(), data: text.as_str().as_bytes_vec() });
    proof {
        reveal_strlit("word/_rels/document.xml.rels");
        let w = parts_view(out@);
        assert forall|i: int| 0 <= i < n implies comment_part_out(bv[i], cs, #[trigger] w[i]) by {
            assert(w[i] == kept[i]);
        }
        assert(w.subrange(n, w.len() as int) =~= appended_parts(bv, comments_added(), encode_utf8(comments_part(cs))));
    }
    Ok(out)
}

/// Adds the source comments of a DOC document to its generated DOCX
/// package: reads the package, rewrites its parts for the projected
/// comments, and writes it back. A document without comments keeps its
/// package as it is.
pub fn add_comments_package(docx: Vec<u8>, document: &WordBinaryDocument, comments: &CommentCollection) -> (res:
    Result<Vec<u8>, String>)
    ensures
        comments.spec_comments().len() == 0 ==> (res matches Ok(b) && b@ == docx@),
        (comments.spec_comments().len() > 0 && !(forall|k: int|
            0 <= k < comments.spec_comments().len() ==> #[trigger] comment_projectable(
                *document,
                comments.spec_comments()[k],
            ))) ==> res is Err,
        (comments.spec_comments().len() > 0 && zip_files(docx@) is None) ==> res is Err,
        (zip_files(docx@) matches Some(p) && comments.spec_comments().len() > 0 && forall|cs: Seq<ProjectedComment>|
            projected_list(cs, comments.spec_comments(), *document) ==> !comments_rewrite_ok(p, cs)) ==> res is Err,
        res matches Ok(b) ==> (comments.spec_comments().len() > 0 ==> exists|cs: Seq<ProjectedComment>|
            projected_list(cs, comments.spec_comments(), *document) && comments_package(docx@, cs, b@)),
{
    if comments.comments().len() == 0 {
        return Ok(docx);
    }
    let projected = crate::doc_comments::project_comments(document, comments)?;
    let ghost cs = projected@;
    let ghost source = docx@;
    let parts = read_package(docx)?;
    proof {
        lemma_files_no_dirs(source, zip_len(source) as int);
    }
    let ghost bv = parts_view(parts@);
    let patched = add_comments_to_parts(parts, projected.as_slice())?;
    proof {
        let w = parts_view(patched@);
        assert forall|i: int| 0 <= i < bv.len() implies (#[trigger] w[i]).0 == bv[i].0 by {
            assert(comment_part_out(bv[i], cs, w[i]));
        }
        reveal_strlit("word/comments.xml");
        lemma_appended_no_dirs(bv, w, comments_added(), encode_utf8(comments_part(cs)));
    }
    let ghost w = parts_view(patched@);
    let out = write_package(patched)?;
    proof {
        assert(projected_list(cs, comments.spec_comments(), *document));
        assert(comments_package(source, cs, out@));
    }
    Ok(out)
}

/// Whether `cs` are the source comments `source` projected from `document`,
/// one for each, in order.
pub open spec fn projected_list(cs: Seq<ProjectedComment>, source: Seq<SourceComment>, document: WordBinaryDocument) -> bool {
    &&& cs.len() == source.len()
    &&& forall|k: int| 0 <= k < cs.len() ==> #[trigger] projected_from(cs[k], source[k], document)
}

/// Whether `out` is DOCX package `docx` with projected comments `cs`.
pub open spec fn comments_package(docx: Seq<u8>, cs: Seq<ProjectedComment>, out: Seq<u8>) -> bool {
    zip_files(docx) matches Some(p) && comments_rewrite_ok(p, cs) && exists|w: Seq<PartView>|
        #![trigger comments_rewrite(p, cs, w)]
        comments_rewrite(p, cs, w) && zip_files(out) == Some(w)
}

/// Whether `q` lists the members of `s` in strictly increasing order.
pub open spec fn ascending_of(q: Seq<u32>, s: Set<u32>) -> bool {
    &&& q.to_set() == s
    &&& forall|i: int, j: int| 0 <= i < j < q.len() ==> q[i] < q[j]
}

/// The members of `used`, in increasing order.
fn ascending_ids(used: &BTreeSet<u32>) -> (res: Vec<u32>)
    ensures
        ascending_of(res@, used@),
{
    broadcast use vstd::std_specs::btree::group_btree_axioms;
    broadcast use vstd::laws_cmp::group_laws_cmp;
    let ghost keys = vstd::std_specs::btree::spec_btree_keys_iter(used).remaining();
    let mut out: Vec<u32> = Vec::new();
    for x in it: used.iter()
        invariant
            keys == vstd::std_specs::btree::spec_btree_keys_iter(used).remaining(),
            it.seq() == keys,
            out@.len() == it.index(),
            forall|i: int| 0 <= i < it.index() ==> out@[i] == *keys[i],
    {
        out.push(*x);
    }
    proof {
        assert(out@.len() == keys.len());
        assert(out@ =~= keys.unref());
        assert(keys.unref().to_set() == used@);
        assert(vstd::laws_cmp::obeys_cmp::<u32>());
        assert(vstd::laws_cmp::obeys_cmp::<&u32>());
        assert(vstd::std_specs::btree::increasing_seq(keys));
        assert forall|i: int, j: int| 0 <= i < j < out@.len() implies out@[i] < out@[j] by {
            assert((&keys[i]).cmp_spec(&keys[j]) is Less);
        }
    }
    out
}

/// The numbering part of a DOCX package.
pub open spec fn numbering_added() -> AddedView {
    (
        "word/numbering.xml"@,
        "/word/numbering.xml"@,
        "application/vnd.openxmlformats-officedocument.wordprocessingml.numbering+xml"@,
        "rIdDocsViewerWasmNumbering"@,
        "http://schemas.openxmlformats.org/officeDocument/2006/relationships/numbering"@,
        "numbering.xml"@,
    )
}

/// `rel_types::NUMBERING`, the relationship type of a numbering part.
#[verifier::external_body]
fn numbering_relationship_type() -> (res: &'static str)
    ensures
        res@ == numbering_added().4,
{
    office_oxide::core::relationships::rel_types::NUMBERING
}

/// The numbering part, with its declaration and relationship.
fn numbering_added_part() -> (res: AddedPart)
    ensures
        res.added_view() == numbering_added(),
{
    proof {
        reveal_strlit("word/numbering.xml");
        reveal_strlit("/word/numbering.xml");
        reveal_strlit("application/vnd.openxmlformats-officedocument.wordprocessingml.numbering+xml");
        reveal_strlit("rIdDocsViewerWasmNumbering");
        reveal_strlit("numbering.xml");
    }
    AddedPart {
        name: "word/numbering.xml",
        part_name: "/word/numbering.xml",
        content_type: "application/vnd.openxmlformats-officedocument.wordprocessingml.numbering+xml",
        rel_id: "rIdDocsViewerWasmNumbering",
        rel_type: numbering_relationship_type(),
        target: "numbering.xml",
        what: "numbering",
    }
}

/// The numbering part's name differs from those of the main document, its
/// relationship part and the content-type table.
proof fn lemma_numbering_name_differs()
    ensures
        numbering_added().0 != document_part_name(),
        numbering_added().0 != document_rels_name(),
        numbering_added().0 != content_types_name(),
{
    reveal_strlit("word/document.xml");
    reveal_strlit("word/_rels/document.xml.rels");
    reveal_strlit("[Content_Types].xml");
    reveal_strlit("word/numbering.xml");
    assert(document_part_name().len() == 17);
    assert(document_rels_name().len() == 28);
    assert(content_types_name().len() == 19);
    assert(numbering_added().0.len() == 18);
}

/// Whether file `e` of a generated DOCX can take the numbering of `lists`:
/// it is no numbering part, a main document part takes its list markers,
/// and a packaging file takes the numbering part's declaration or
/// relationship.
pub open spec fn numbering_part_ok(e: PartView, lists: ListCollection) -> bool {
    &&& e.0 != numbering_added().0
    &&& e.0 == document_part_name() ==> numbering_document_patch(e.1, lists) is Some
    &&& opc_part_ok(e, numbering_added())
}

/// Whether `f` is file `e` rewritten for the numbering of `lists`.
pub open spec fn numbering_part_out(e: PartView, lists: ListCollection, f: PartView) -> bool {
    &&& f.0 == e.0
    &&& if e.0 == document_part_name() {
        f.1 == numbering_document_patch(e.1, lists).unwrap().0
    } else {
        opc_part_out(e, numbering_added(), f.1)
    }
}

/// The list instances that the last main document part of `v[..n]` uses.
pub open spec fn used_lists(v: Seq<PartView>, lists: ListCollection, n: int) -> Set<u32>
    decreases n,
{
    if n <= 0 || n > v.len() {
        Set::empty()
    } else if v[n - 1].0 == document_part_name() {
        numbering_document_patch(v[n - 1].1, lists).unwrap().1
    } else {
        used_lists(v, lists, n - 1)
    }
}

/// Whether package `v` can take the numbering of `lists`: every file can,
/// it has a main document part and a content-type table, and its main
/// document uses some list instance.
pub open spec fn numbering_rewrite_ok(v: Seq<PartView>, lists: ListCollection) -> bool {
    &&& forall|i: int| 0 <= i < v.len() ==> numbering_part_ok(#[trigger] v[i], lists)
    &&& has_part(v, document_part_name())
    &&& has_part(v, content_types_name())
    &&& used_lists(v, lists, v.len() as int) != Set::<u32>::empty()
}

/// Whether `w` is package `v` with the numbering of `lists` over `fonts`,
/// for used list instances `q` in increasing order: each file rewritten in
/// place, then the appended files, the numbering part last.
pub open spec fn numbering_rewrite(
    v: Seq<PartView>,
    lists: ListCollection,
    fonts: Seq<FontEntry>,
    q: Seq<u32>,
    w: Seq<PartView>,
) -> bool {
    &&& w.len() >= v.len()
    &&& forall|i: int| 0 <= i < v.len() ==> numbering_part_out(v[i], lists, #[trigger] w[i])
    &&& w.subrange(v.len() as int, w.len() as int) == appended_parts(
        v,
        numbering_added(),
        encode_utf8(numbering_text(lists, fonts, q).unwrap()),
    )
}

/// Adds the numbering of `lists` to the parts of a generated DOCX package:
/// list markers in the main document become numbering properties, and a
/// numbering part for the list instances they use is declared, related and
/// appended.
#[verifier::loop_isolation(false)]
#[verifier::rlimit(60)]
#[verifier::spinoff_prover]
pub fn add_numbering_to_parts(parts: Vec<PackagePart>, lists: &ListCollection, fonts: &FontTable) -> (res: Result<
    Vec<PackagePart>,
    String,
>)
    ensures
        !numbering_rewrite_ok(parts_view(parts@), *lists) ==> res is Err,
        (numbering_rewrite_ok(parts_view(parts@), *lists) && forall|q: Seq<u32>|
            ascending_of(q, used_lists(parts_view(parts@), *lists, parts@.len() as int)) ==> numbering_text(
                *lists,
                fonts.spec_fonts(),
                q,
            ) is None) ==> res is Err,
        res matches Ok(v) ==> numbering_rewrite_ok(parts_view(parts@), *lists) && exists|q: Seq<u32>|
            #![trigger ascending_of(q, used_lists(parts_view(parts@), *lists, parts@.len() as int))]
            ascending_of(q, used_lists(parts_view(parts@), *lists, parts@.len() as int)) && numbering_text(
                *lists,
                fonts.spec_fonts(),
                q,
            ) is Some && numbering_rewrite(parts_view(parts@), *lists, fonts.spec_fonts(), q, parts_view(v@)),
        res matches Ok(v) ==> forall|i: int| 0 <= i < parts@.len() ==> (#[trigger] v@[i]).compression == parts@[i].compression,
{
    proof {
        lemma_part_names_differ();
        lemma_numbering_name_differs();
    }
    let added = numbering_added_part();
    let ghost before = parts@;
    let ghost bv = parts_view(before);
    let mut rest = reverse_parts(parts);
    let mut out: Vec<PackagePart> = Vec::new();
    let mut found_document = false;
    let mut found_content_types = false;
    let mut found_rels = false;
    let mut used: BTreeSet<u32> = BTreeSet::new();
    proof {
        assert(used@ =~= Set::<u32>::empty());
    }
    while rest.len() > 0
        invariant
            rest@.len() + out@.len() == before.len(),
            bv == parts_view(before),
            forall|i: int| 0 <= i < rest@.len() ==> #[trigger] rest@[i] == before[before.len() - 1 - i],
            forall|i: int| 0 <= i < out@.len() ==> numbering_part_ok(#[trigger] bv[i], *lists),
            forall|i: int| 0 <= i < out@.len() ==> numbering_part_out(bv[i], *lists, #[trigger] parts_view(out@)[i]),
            forall|i: int| 0 <= i < out@.len() ==> (#[trigger] out@[i]).compression == before[i].compression,
            found_document == has_part(bv.take(out@.len() as int), document_part_name()),
            found_content_types == has_part(bv.take(out@.len() as int), content_types_name()),
            found_rels == has_part(bv.take(out@.len() as int), document_rels_name()),
            used@ == used_lists(bv, *lists, out@.len() as int),
        decreases rest@.len(),
    {
        let ghost k = out@.len() as int;
        let part = rest.pop().unwrap();
        assert(part == before[k]);
        assert(bv[k] == (part.name@, part.data@));
        proof {
            lemma_has_part_step(bv, k, document_part_name());
            lemma_has_part_step(bv, k, content_types_name());
            lemma_has_part_step(bv, k, document_rels_name());
        }
        let PackagePart { name, compression, data } = part;
        if str_equal(name.as_str(), added.name) {
            assert(!numbering_part_ok(bv[k], *lists));
            return Err(message("generated DOCX unexpectedly already contains word/numbering.xml"));
        }
        let data = if is_document_part(name.as_str()) {
            found_document = true;
            match crate::doc_numbering::patch_document_xml(data.as_slice(), lists) {
                Ok((patched, referenced)) => {
                    used = referenced;
                    patched
                },
                Err(error) => {
                    assert(!numbering_part_ok(bv[k], *lists));
                    return Err(error);
                },
            }
        } else {
            if is_document_rels(name.as_str()) {
                found_rels = true;
            }
            if is_content_types(name.as_str()) {
                found_content_types = true;
            }
            match rewrite_opc_part(name.as_str(), data, &added) {
                Ok(rewritten) => rewritten,
                Err(error) => {
                    assert(!numbering_part_ok(bv[k], *lists));
                    return Err(error);
                },
            }
        };
        assert(numbering_part_ok(bv[k], *lists));
        let ghost prev = out@;
        out.push(PackagePart { name, compression, data });
        proof {
            assert forall|i: int| 0 <= i < out@.len() implies numbering_part_ok(#[trigger] bv[i], *lists) by {}
            assert forall|i: int| 0 <= i < out@.len() implies numbering_part_out(
                bv[i],
                *lists,
                #[trigger] parts_view(out@)[i],
            ) by {
                if i < k {
                    assert(parts_view(out@)[i] == parts_view(prev)[i]);
                }
            }
            assert forall|i: int| 0 <= i < out@.len() implies (#[trigger] out@[i]).compression
                == before[i].compression by {
                if i < k {
                    assert(out@[i] == prev[i]);
                }
            }
        }
    }
    proof {
        assert(bv.take(before.len() as int) =~= bv);
    }
    if !found_document || !found_content_types {
        return Err(message("generated DOCX is missing document.xml or [Content_Types].xml"));
    }
    if used.is_empty() {
        return Err(message("DOC list tables were parsed but no projected list paragraphs were found"));
    }
    let ghost n = out@.len() as int;
    let ghost kept = parts_view(out@);
    if !found_rels {
        let rels_name = message("word/_rels/document.xml.rels");
        let rels = new_relationship_part(added.rel_id, added.rel_type, added.target);
        out.push(PackagePart { name: rels_name, compression: deflated(), data: rels });
    }
    let ids = ascending_ids(&used);
    let text = match crate::doc_numbering::numbering_xml(lists, fonts, ids.as_slice()) {
        Ok(text) => text,
        Err(error) => {
            return Err(error);
        },
    };
    let name = message(added.name);
    out.push(PackagePart { name, compression: deflated(), data: text.as_str().as_bytes_vec() });
    proof {
        reveal_strlit("word/_rels/document.xml.rels");
        let w = parts_view(out@);
        assert forall|i: int| 0 <= i < n implies numbering_part_out(bv[i], *lists, #[trigger] w[i]) by {
            assert(w[i] == kept[i]);
        }
        assert(w.subrange(n, w.len() as int) =~= appended_parts(
            bv,
            numbering_added(),
            encode_utf8(numbering_text(*lists, fonts.spec_fonts(), ids@).unwrap()),
        ));
        assert(numbering_rewrite(bv, *lists, fonts.spec_fonts(), ids@, w));
    }
    Ok(out)
}

/// The bytes of the first file of `v[k..]` named `name`.
pub open spec fn first_part(v: Seq<PartView>, name: Seq<char>, k: int) -> Option<Seq<u8>>
    decreases v.len() - k,
{
    if k < 0 || k >= v.len() {
        None
    } else if v[k].0 == name {
        Some(v[k].1)
    } else {
        first_part(v, name, k + 1)
    }
}

/// Whether the main document part of generated DOCX package `docx` holds a
/// list projection marker, or `None` where the package cannot be read, has
/// no main document part, or that part is no UTF-8 or holds a malformed
/// marker.
pub open spec fn list_markers_in(docx: Seq<u8>) -> Option<bool> {
    match zip_files(docx) {
        None => None,
        Some(p) => match first_part(p, document_part_name(), 0) {
            None => None,
            Some(d) => if !vstd::utf8::valid_utf8(d) {
                None
            } else {
                match markers_from(vstd::utf8::decode_utf8(d), 0) {
                    None => None,
                    Some(list) => Some(list.len() > 0),
                }
            },
        },
    }
}

/// Whether the main document part of a generated DOCX package holds a list
/// projection marker.
fn list_markers_present(docx: &Vec<u8>) -> (res: Result<bool, String>)
    ensures
        match list_markers_in(docx@) {
            Some(b) => res == Ok::<bool, String>(b),
            None => res is Err,
        },
{
    let parts = read_package(docx.clone())?;
    let ghost v = parts_view(parts@);
    let mut index: usize = 0;
    while index < parts.len()
        invariant
            index <= parts@.len(),
            v == parts_view(parts@),
            zip_files(docx@) == Some(v),
            first_part(v, document_part_name(), 0) == first_part(v, document_part_name(), index as int),
        decreases parts@.len() - index,
    {
        if is_document_part(parts[index].name.as_str()) {
            let xml = match crate::text::utf8_string(parts[index].data.as_slice()) {
                Some(text) => text,
                None => {
                    return Err(message("generated word/document.xml is not UTF-8"));
                },
            };
            proof {
                vstd::utf8::encode_utf8_decode_utf8(xml@);
            }
            let markers = crate::doc_numbering::parse_markers(xml.as_str())?;
            return Ok(markers.len() > 0);
        }
        index = index + 1;
    }
    Err(message("generated DOCX is missing word/document.xml"))
}

/// Whether `out` is DOCX package `docx` with the numbering of `lists` over
/// `fonts`.
pub open spec fn numbering_package(docx: Seq<u8>, lists: ListCollection, fonts: Seq<FontEntry>, out: Seq<u8>) -> bool {
    zip_files(docx) matches Some(p) && numbering_rewrite_ok(p, lists) && exists|q: Seq<u32>, w: Seq<PartView>|
        #![trigger numbering_rewrite(p, lists, fonts, q, w)]
        ascending_of(q, used_lists(p, lists, p.len() as int)) && numbering_text(lists, fonts, q) is Some
            && numbering_rewrite(p, lists, fonts, q, w) && zip_files(out) == Some(w)
}

/// Adds the numbering of the source lists to a generated DOCX package:
/// reads it, rewrites its parts, and writes it back. A package is kept as
/// it is where the source has no list instance or its main document holds
/// no list marker.
pub fn add_numbering_package(docx: Vec<u8>, lists: &ListCollection, fonts: &FontTable) -> (res: Result<
    Vec<u8>,
    String,
>)
    ensures
        lists.spec_overrides().len() == 0 ==> (res matches Ok(b) && b@ == docx@),
        (lists.spec_overrides().len() > 0 && list_markers_in(docx@) is None) ==> res is Err,
        (lists.spec_overrides().len() > 0 && list_markers_in(docx@) == Some(false)) ==> (res matches Ok(b) && b@
            == docx@),
        (zip_files(docx@) matches Some(p) && lists.spec_overrides().len() > 0 && list_markers_in(docx@) == Some(true)
            && !numbering_rewrite_ok(p, *lists)) ==> res is Err,
        (zip_files(docx@) matches Some(p) && lists.spec_overrides().len() > 0 && list_markers_in(docx@) == Some(true)
            && forall|q: Seq<u32>|
            ascending_of(q, used_lists(p, *lists, p.len() as int)) ==> numbering_text(*lists, fonts.spec_fonts(), q)
                is None) ==> res is Err,
        res matches Ok(b) ==> ((lists.spec_overrides().len() > 0 && list_markers_in(docx@) == Some(true))
            ==> numbering_package(docx@, *lists, fonts.spec_fonts(), b@)),
{
    if lists.overrides().len() == 0 {
        return Ok(docx);
    }
    if !list_markers_present(&docx)? {
        return Ok(docx);
    }
    let ghost source = docx@;
    let parts = read_package(docx)?;
    proof {
        lemma_files_no_dirs(source, zip_len(source) as int);
    }
    let ghost bv = parts_view(parts@);
    let ghost n = parts@.len() as int;
    let patched = add_numbering_to_parts(parts, lists, fonts)?;
    let ghost w = parts_view(patched@);
    let ghost q = choose|q: Seq<u32>|
        ascending_of(q, used_lists(bv, *lists, n)) && numbering_text(*lists, fonts.spec_fonts(), q) is Some
            && numbering_rewrite(bv, *lists, fonts.spec_fonts(), q, w);
    proof {
        assert forall|i: int| 0 <= i < bv.len() implies (#[trigger] w[i]).0 == bv[i].0 by {
            assert(numbering_part_out(bv[i], *lists, w[i]));
        }
        reveal_strlit("word/numbering.xml");
        lemma_appended_no_dirs(bv, w, numbering_added(), encode_utf8(numbering_text(*lists, fonts.spec_fonts(), q).unwrap()));
    }
    let out = write_package(patched)?;
    proof {
        assert(numbering_rewrite(bv, *lists, fonts.spec_fonts(), q, w));
    }
    Ok(out)
}

/// A package that has been given comments cannot be given comments again:
/// it now holds a comments part.
pub proof fn lemma_comments_added_once(
    v: Seq<PartView>,
    cs: Seq<ProjectedComment>,
    w: Seq<PartView>,
    more: Seq<ProjectedComment>,
)
    requires
        comments_rewrite(v, cs, w),
    ensures
        !comments_rewrite_ok(w, more),
{
    let n = v.len() as int;
    let tail = appended_parts(v, comments_added(), encode_utf8(comments_part(cs)));
    assert(w.subrange(n, w.len() as int).len() == tail.len());
    let last = w.len() - 1;
    assert(w[last] == w.subrange(n, w.len() as int)[tail.len() - 1]);
    assert(w[last].0 == comments_added().0);
    assert(!comment_part_ok(w[last], more));
}

/// A package that has been given numbering cannot be given numbering again:
/// it now holds a numbering part.
pub proof fn lemma_numbering_added_once(
    v: Seq<PartView>,
    lists: ListCollection,
    fonts: Seq<FontEntry>,
    q: Seq<u32>,
    w: Seq<PartView>,
    more: ListCollection,
)
    requires
        numbering_rewrite(v, lists, fonts, q, w),
    ensures
        !numbering_rewrite_ok(w, more),
{
    let n = v.len() as int;
    let tail = appended_parts(v, numbering_added(), encode_utf8(numbering_text(lists, fonts, q).unwrap()));
    assert(w.subrange(n, w.len() as int).len() == tail.len());
    let last = w.len() - 1;
    assert(w[last] == w.subrange(n, w.len() as int)[tail.len() - 1]);
    assert(w[last].0 == numbering_added().0);
    assert(!numbering_part_ok(w[last], more));
}

} // verus!

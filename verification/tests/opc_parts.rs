use std::io::{Cursor, Read, Write};

use legacy_doc::doc_comments::ProjectedComment;
use legacy_doc::opc::{declare_part, new_relationship_part, relate_part};
use legacy_doc::package::{
    PackagePart, add_comments_to_parts, add_numbering_package, add_numbering_to_parts,
};
use legacy_doc::{FontTable, ListCollection};
use zip::write::SimpleFileOptions;
use zip::{CompressionMethod, ZipArchive, ZipWriter};

const NUMBERING_TYPE: &str = "http://schemas.openxmlformats.org/officeDocument/2006/relationships/numbering";
const COMMENTS_TYPE: &str = "http://schemas.openxmlformats.org/officeDocument/2006/relationships/comments";
const NUMBERING_CONTENT: &str = "application/vnd.openxmlformats-officedocument.wordprocessingml.numbering+xml";
const MAIN_CONTENT: &str = "application/vnd.openxmlformats-officedocument.wordprocessingml.document.main+xml";
const RELS: &str = "<?xml version=\"1.0\" encoding=\"UTF-8\"?><Relationships xmlns=\"http://schemas.openxmlformats.org/package/2006/relationships\"><Relationship Id=\"rId1\" Type=\"http://schemas.openxmlformats.org/officeDocument/2006/relationships/styles\" Target=\"styles.xml\"/></Relationships>";
const TYPES: &str = "<?xml version=\"1.0\" encoding=\"UTF-8\"?><Types xmlns=\"http://schemas.openxmlformats.org/package/2006/content-types\"><Default Extension=\"xml\" ContentType=\"application/xml\"/><Override PartName=\"/word/document.xml\" ContentType=\"application/vnd.openxmlformats-officedocument.wordprocessingml.document.main+xml\"/></Types>";
const DOCUMENT: &str = "<w:document><w:body><w:p><w:t>x</w:t></w:p></w:body></w:document>";

fn part(name: &str, data: &str) -> PackagePart {
    PackagePart { name: name.into(), compression: CompressionMethod::Stored, data: data.as_bytes().to_vec() }
}

fn package(entries: &[(&str, &str)]) -> Vec<u8> {
    let mut output = Cursor::new(Vec::new());
    {
        let mut writer = ZipWriter::new(&mut output);
        for (name, data) in entries {
            writer
                .start_file(*name, SimpleFileOptions::default().compression_method(CompressionMethod::Stored))
                .unwrap();
            writer.write_all(data.as_bytes()).unwrap();
        }
        writer.finish().unwrap();
    }
    output.into_inner()
}

fn entry(bytes: &[u8], name: &str) -> String {
    let mut archive = ZipArchive::new(Cursor::new(bytes.to_vec())).unwrap();
    let mut file = archive.by_name(name).unwrap();
    let mut text = String::new();
    file.read_to_string(&mut text).unwrap();
    text
}

#[test]
fn relates_a_part_after_the_existing_relationships() {
    let out = relate_part(RELS.as_bytes(), "rIdNumbering", NUMBERING_TYPE, "numbering.xml", "numbering").unwrap();
    let parsed = office_oxide::core::relationships::Relationships::parse(&out).unwrap();
    let all = parsed.all();
    assert_eq!(all.len(), 2);
    assert_eq!(all[0].id, "rId1");
    assert_eq!(&*all[0].target, "styles.xml");
    assert_eq!(all[1].id, "rIdNumbering");
    assert_eq!(all[1].rel_type, NUMBERING_TYPE);
    assert_eq!(&*all[1].target, "numbering.xml");
    assert_eq!(
        relate_part(&out, "rIdOther", NUMBERING_TYPE, "other.xml", "numbering").err().unwrap(),
        "generated DOCX already contains a numbering relationship"
    );
    assert_eq!(
        relate_part(&out, "rId1", COMMENTS_TYPE, "comments.xml", "comments").err().unwrap(),
        "generated DOCX already contains a comments relationship"
    );
}

#[test]
fn new_relationship_part_holds_one_relationship() {
    let out = new_relationship_part("rIdComments", COMMENTS_TYPE, "comments.xml");
    let parsed = office_oxide::core::relationships::Relationships::parse(&out).unwrap();
    assert_eq!(parsed.all().len(), 1);
    assert_eq!(parsed.get_by_id("rIdComments").map(|r| r.target.to_string()), Some("comments.xml".to_string()));
}

#[test]
fn declares_a_part_once_without_regard_to_case() {
    let out = declare_part(TYPES.as_bytes(), "/word/numbering.xml", NUMBERING_CONTENT, "numbering").unwrap();
    let parsed = office_oxide::core::content_types::ContentTypes::parse(&out).unwrap();
    assert_eq!(parsed.resolve(&office_oxide::core::opc::PartName::new("/word/numbering.xml").unwrap()), Some(NUMBERING_CONTENT));
    assert_eq!(parsed.resolve(&office_oxide::core::opc::PartName::new("/word/document.xml").unwrap()), Some(MAIN_CONTENT));
    assert_eq!(
        parsed.defaults().get("rels").map(String::as_str),
        Some("application/vnd.openxmlformats-package.relationships+xml")
    );
    assert_eq!(
        declare_part(&out, "/WORD/Numbering.xml", NUMBERING_CONTENT, "numbering").err().unwrap(),
        "generated DOCX already declares a numbering content type"
    );
    assert!(declare_part(TYPES.as_bytes(), "word/numbering.xml", NUMBERING_CONTENT, "numbering").is_err());
}

#[test]
fn adds_the_comments_part_with_its_relationship_and_declaration() {
    let parts = vec![part("[Content_Types].xml", TYPES), part("word/document.xml", DOCUMENT)];
    let out = add_comments_to_parts(parts, &[]).unwrap();
    assert_eq!(
        out.iter().map(|p| p.name.as_str()).collect::<Vec<_>>(),
        ["[Content_Types].xml", "word/document.xml", "word/_rels/document.xml.rels", "word/comments.xml"]
    );
    assert_eq!(out[1].data, DOCUMENT.as_bytes());
    let rels = office_oxide::core::relationships::Relationships::parse(&out[2].data).unwrap();
    assert_eq!(rels.get_by_id("rIdZrimoComments").map(|r| r.rel_type.clone()), Some(COMMENTS_TYPE.to_string()));
    let types = office_oxide::core::content_types::ContentTypes::parse(&out[0].data).unwrap();
    assert!(types.resolve(&office_oxide::core::opc::PartName::new("/word/comments.xml").unwrap()).is_some());
    assert!(String::from_utf8(out[3].data.clone()).unwrap().contains("<w:comments"));
}

#[test]
fn relates_comments_in_an_existing_relationship_part() {
    let comments = [ProjectedComment {
        id: 1,
        author: "A".into(),
        initials: "A".into(),
        marker: "\u{F0000}ZRIMO_COMMENT_00000001\u{F0001}".into(),
        range_markers: None,
        body: "note".encode_utf16().collect(),
    }];
    let document = "<w:document><w:body><w:p><w:r><w:t>x\u{F0000}ZRIMO_COMMENT_00000001\u{F0001}</w:t></w:r></w:p></w:body></w:document>";
    let parts = vec![
        part("[Content_Types].xml", TYPES),
        part("word/_rels/document.xml.rels", RELS),
        part("word/document.xml", document),
    ];
    match add_comments_to_parts(parts, &comments) {
        Ok(out) => {
            assert_eq!(out.len(), 4);
            assert_eq!(out[3].name, "word/comments.xml");
            let rels = office_oxide::core::relationships::Relationships::parse(&out[1].data).unwrap();
            assert_eq!(rels.all().len(), 2);
            assert!(!String::from_utf8(out[2].data.clone()).unwrap().contains("ZRIMO_COMMENT"));
        },
        Err(error) => panic!("{error}"),
    }
}

#[test]
fn refuses_packages_the_comment_rewrite_cannot_take() {
    let twice = vec![part("[Content_Types].xml", TYPES), part("word/document.xml", DOCUMENT), part("word/comments.xml", "")];
    assert_eq!(
        add_comments_to_parts(twice, &[]).err().unwrap(),
        "generated DOCX unexpectedly already contains word/comments.xml"
    );
    let untyped = vec![part("word/document.xml", DOCUMENT)];
    assert_eq!(
        add_comments_to_parts(untyped, &[]).err().unwrap(),
        "generated DOCX is missing document.xml or [Content_Types].xml"
    );
    let related = vec![
        part("[Content_Types].xml", TYPES),
        part("word/_rels/document.xml.rels", &RELS.replace("rId1", "rIdZrimoComments")),
        part("word/document.xml", DOCUMENT),
    ];
    assert_eq!(
        add_comments_to_parts(related, &[]).err().unwrap(),
        "generated DOCX already contains a comments relationship"
    );
}

#[test]
fn numbering_needs_a_document_that_uses_a_list() {
    let lists = ListCollection::default();
    let fonts = FontTable::default();
    let parts = vec![part("[Content_Types].xml", TYPES), part("word/document.xml", DOCUMENT)];
    assert_eq!(
        add_numbering_to_parts(parts, &lists, &fonts).err().unwrap(),
        "DOC list tables were parsed but no projected list paragraphs were found"
    );
    let twice = vec![part("word/numbering.xml", ""), part("word/document.xml", DOCUMENT)];
    assert_eq!(
        add_numbering_to_parts(twice, &lists, &fonts).err().unwrap(),
        "generated DOCX unexpectedly already contains word/numbering.xml"
    );
}

#[test]
fn keeps_packages_without_list_instances() {
    let bytes = package(&[("[Content_Types].xml", TYPES), ("word/document.xml", DOCUMENT)]);
    let lists = ListCollection::default();
    let fonts = FontTable::default();
    assert_eq!(add_numbering_package(bytes.clone(), &lists, &fonts).unwrap(), bytes);
    assert_eq!(entry(&bytes, "word/document.xml"), DOCUMENT);
}

#[test]
fn a_package_takes_comments_only_once() {
    let parts = vec![part("[Content_Types].xml", TYPES), part("word/document.xml", DOCUMENT)];
    let once = add_comments_to_parts(parts, &[]).unwrap();
    assert_eq!(
        add_comments_to_parts(once, &[]).err().unwrap(),
        "generated DOCX already declares a comments content type"
    );
}

#[test]
fn a_rewritten_package_round_trips_through_zip() {
    let bytes = package(&[("[Content_Types].xml", TYPES), ("word/document.xml", DOCUMENT)]);
    let parts = legacy_doc::package::read_package(bytes).unwrap();
    let out = add_comments_to_parts(parts, &[]).unwrap();
    let written = legacy_doc::package::write_package(out).unwrap();
    assert_eq!(entry(&written, "word/document.xml"), DOCUMENT);
    assert!(entry(&written, "word/_rels/document.xml.rels").contains("rIdZrimoComments"));
    assert!(entry(&written, "[Content_Types].xml").contains("/word/comments.xml"));
}

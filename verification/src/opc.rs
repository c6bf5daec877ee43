//! The packaging parts of a generated OOXML package, through `office_oxide`:
//! its content-type table and its relationship parts, each parsed, extended
//! by one entry, and written back.

use vstd::prelude::*;


use crate::error::message;
use crate::format::ascii_lower;
use crate::text::append_str;

verus! {

#[verifier::external_type_specification]
#[verifier::external_body]
pub struct ExPackageError(office_oxide::core::Error);

#[verifier::external_type_specification]
#[verifier::external_body]
pub struct ExContentTypes(office_oxide::core::content_types::ContentTypes);

#[verifier::external_type_specification]
#[verifier::external_body]
pub struct ExContentTypesBuilder(office_oxide::core::content_types::ContentTypesBuilder);

#[verifier::external_type_specification]
#[verifier::external_body]
pub struct ExRelationships(office_oxide::core::relationships::Relationships);

#[verifier::external_type_specification]
#[verifier::external_body]
pub struct ExRelationshipsBuilder(office_oxide::core::relationships::RelationshipsBuilder);

/// One relationship: its Id, its type, its target, and whether the target
/// lies outside the package.
pub type RelView = (Seq<char>, Seq<char>, Seq<char>, bool);

/// What `Relationships::parse` reads from `data`: the relationships in
/// document order, or `None` where it fails.
pub uninterp spec fn relationships_in(data: Seq<u8>) -> Option<Seq<RelView>>;

/// The relationships a parsed `Relationships` holds, in order.
pub uninterp spec fn relationship_entries(r: office_oxide::core::relationships::Relationships) -> Seq<RelView>;

/// The relationships a `RelationshipsBuilder` holds, in order.
pub uninterp spec fn builder_relationships(b: office_oxide::core::relationships::RelationshipsBuilder) -> Seq<RelView>;

/// The bytes `RelationshipsBuilder::serialize` writes for its relationships.
pub uninterp spec fn relationships_xml(entries: Seq<RelView>) -> Seq<u8>;

/// What `ContentTypes::parse` reads from `data`: its defaults by extension
/// and its overrides by part name, or `None` where it fails.
pub uninterp spec fn content_types_in(data: Seq<u8>) -> Option<(Map<Seq<char>, Seq<char>>, Map<Seq<char>, Seq<char>>)>;

/// The defaults, by extension, a parsed `ContentTypes` holds.
pub uninterp spec fn content_type_defaults(c: office_oxide::core::content_types::ContentTypes) -> Map<Seq<char>, Seq<char>>;

/// The overrides, by part name, a parsed `ContentTypes` holds.
pub uninterp spec fn content_type_overrides(c: office_oxide::core::content_types::ContentTypes) -> Map<Seq<char>, Seq<char>>;

/// The part name `PartName::new` makes of `name`, or `None` where it refuses it.
pub uninterp spec fn part_name_in(name: Seq<char>) -> Option<Seq<char>>;

/// The defaults, by extension, a `ContentTypesBuilder` holds.
pub uninterp spec fn builder_defaults(b: office_oxide::core::content_types::ContentTypesBuilder) -> Map<Seq<char>, Seq<char>>;

/// The overrides a `ContentTypesBuilder` holds, in the order they were added.
pub uninterp spec fn builder_overrides(b: office_oxide::core::content_types::ContentTypesBuilder) -> Seq<(Seq<char>, Seq<char>)>;

/// The bytes `ContentTypesBuilder::serialize` writes for its defaults and
/// its overrides.
pub uninterp spec fn content_types_xml(
    defaults: Map<Seq<char>, Seq<char>>,
    overrides: Seq<(Seq<char>, Seq<char>)>,
) -> Seq<u8>;

/// The defaults a new `ContentTypesBuilder` starts with.
pub open spec fn standard_defaults() -> Map<Seq<char>, Seq<char>> {
    map!["rels"@ => "application/vnd.openxmlformats-package.relationships+xml"@, "xml"@ => "application/xml"@]
}

/// Whether some relationship of `entries` has Id `id`.
pub open spec fn has_id(entries: Seq<RelView>, id: Seq<char>) -> bool {
    exists|i: int| 0 <= i < entries.len() && (#[trigger] entries[i]).0 == id
}

/// Whether some relationship of `entries` has type `rel_type`.
pub open spec fn has_type(entries: Seq<RelView>, rel_type: Seq<char>) -> bool {
    exists|i: int| 0 <= i < entries.len() && (#[trigger] entries[i]).1 == rel_type
}

/// Whether `s` lists the entries of `m`, each once, in some order.
pub open spec fn lists_map(s: Seq<(Seq<char>, Seq<char>)>, m: Map<Seq<char>, Seq<char>>) -> bool {
    &&& m.dom().finite()
    &&& s.len() == m.dom().len()
    &&& forall|i: int| 0 <= i < s.len() ==> m.dom().contains((#[trigger] s[i]).0) && m[s[i].0] == s[i].1
    &&& forall|i: int, j: int| 0 <= i < j < s.len() ==> (#[trigger] s[i]).0 != (#[trigger] s[j]).0
}

/// `Relationships::parse`, which reads `data` alone.
#[verifier::external_body]
fn parse_relationships(data: &[u8]) -> (res: core::result::Result<office_oxide::core::relationships::Relationships, office_oxide::core::Error>)
    ensures
        match res {
            Ok(r) => relationships_in(data@) == Some(relationship_entries(r)),
            Err(_) => relationships_in(data@) is None,
        },
{
    office_oxide::core::relationships::Relationships::parse(data)
}

/// `Relationships::get_by_id(id).is_some()`: whether some relationship has
/// Id `id`.
#[verifier::external_body]
fn has_relationship_id(r: &office_oxide::core::relationships::Relationships, id: &str) -> (res: bool)
    ensures
        res == has_id(relationship_entries(*r), id@),
{
    r.get_by_id(id).is_some()
}

/// `Relationships::first_by_type(rel_type).is_some()`: whether some
/// relationship has type `rel_type`.
#[verifier::external_body]
fn has_relationship_type(r: &office_oxide::core::relationships::Relationships, rel_type: &str) -> (res: bool)
    ensures
        res == has_type(relationship_entries(*r), rel_type@),
{
    r.first_by_type(rel_type).is_some()
}

/// `Relationships::all().len()`.
#[verifier::external_body]
fn relationship_count(r: &office_oxide::core::relationships::Relationships) -> (res: usize)
    ensures
        res == relationship_entries(*r).len(),
{
    r.all().len()
}

/// Relationship `index` of `Relationships::all()`, its fields as plain
/// values, the target mode as whether it is `External`.
#[verifier::external_body]
fn relationship_at(r: &office_oxide::core::relationships::Relationships, index: usize) -> (res: (String, String, String, bool))
    requires
        index < relationship_entries(*r).len(),
    ensures
        (res.0@, res.1@, res.2@, res.3) == relationship_entries(*r)[index as int],
{
    let rel = &r.all()[index];
    let external = match rel.target_mode {
        office_oxide::core::relationships::TargetMode::External => true,
        office_oxide::core::relationships::TargetMode::Internal => false,
    };
    (rel.id.clone(), rel.rel_type.clone(), rel.target.to_string(), external)
}

/// `RelationshipsBuilder::new`, which holds no relationship.
#[verifier::external_body]
fn new_relationships_builder() -> (res: office_oxide::core::relationships::RelationshipsBuilder)
    ensures
        builder_relationships(res) == Seq::<RelView>::empty(),
{
    office_oxide::core::relationships::RelationshipsBuilder::new()
}

/// `RelationshipsBuilder::add_with_id`, with the target mode `External`
/// where `external` holds and `Internal` elsewhere: appends the relationship.
#[verifier::external_body]
fn add_relationship(b: &mut office_oxide::core::relationships::RelationshipsBuilder, id: &str, rel_type: &str, target: &str, external: bool)
    ensures
        builder_relationships(*final(b)) == builder_relationships(*old(b)).push((id@, rel_type@, target@, external)),
{
    let mode = match external {
        true => office_oxide::core::relationships::TargetMode::External,
        false => office_oxide::core::relationships::TargetMode::Internal,
    };
    b.add_with_id(id, rel_type, target, mode);
}

/// `RelationshipsBuilder::serialize`.
#[verifier::external_body]
fn relationships_bytes(b: &office_oxide::core::relationships::RelationshipsBuilder) -> (res: Vec<u8>)
    ensures
        res@ == relationships_xml(builder_relationships(*b)),
{
    b.serialize()
}

/// `ContentTypes::parse`, which reads `data` alone; it stores each default's
/// extension in ASCII lower case.
#[verifier::external_body]
fn parse_content_types(data: &[u8]) -> (res: core::result::Result<office_oxide::core::content_types::ContentTypes, office_oxide::core::Error>)
    ensures
        match res {
            Ok(c) => content_types_in(data@) == Some((content_type_defaults(c), content_type_overrides(c))),
            Err(_) => content_types_in(data@) is None,
        },
        res matches Ok(c) ==> forall|k: Seq<char>|
            #[trigger] content_type_defaults(c).dom().contains(k) ==> ascii_lower(k) == k,
{
    office_oxide::core::content_types::ContentTypes::parse(data)
}

/// `PartName::new(name)`, then `ContentTypes::overrides().contains_key` of
/// that part name; part names compare without regard to ASCII case.
#[verifier::external_body]
fn declares_part(c: &office_oxide::core::content_types::ContentTypes, name: &str) -> (res: core::result::Result<bool, office_oxide::core::Error>)
    ensures
        match res {
            Ok(d) => part_name_in(name@) matches Some(t) && d == exists|k: Seq<char>|
                #[trigger] content_type_overrides(*c).dom().contains(k) && ascii_lower(k) == ascii_lower(t),
            Err(_) => part_name_in(name@) is None,
        },
{
    let part = office_oxide::core::opc::PartName::new(name)?;
    Ok(c.overrides().contains_key(&part))
}

/// `ContentTypesBuilder::new`, then `add_default` for each default of `c`
/// and `add_override` for each of its overrides, in the order in which
/// their maps are walked. That order depends on the process's hash seed,
/// so only that every override is added once is stated.
#[verifier::external_body]
fn content_types_builder(c: &office_oxide::core::content_types::ContentTypes) -> (res: office_oxide::core::content_types::ContentTypesBuilder)
    requires
        forall|k: Seq<char>| #[trigger] content_type_defaults(*c).dom().contains(k) ==> ascii_lower(k) == k,
    ensures
        builder_defaults(res) == standard_defaults().union_prefer_right(content_type_defaults(*c)),
        lists_map(builder_overrides(res), content_type_overrides(*c)),
{
    let mut builder = office_oxide::core::content_types::ContentTypesBuilder::new();
    for (extension, declared) in c.defaults() {
        builder.add_default(extension, declared);
    }
    for (name, declared) in c.overrides() {
        builder.add_override(name.clone(), declared);
    }
    builder
}

/// `PartName::new(name)`, then `ContentTypesBuilder::add_override` of that
/// part name: appends the override.
#[verifier::external_body]
fn add_content_type_override(b: &mut office_oxide::core::content_types::ContentTypesBuilder, name: &str, content_type: &str) -> (res:
    core::result::Result<(), office_oxide::core::Error>)
    ensures
        match res {
            Ok(()) => part_name_in(name@) matches Some(t) && builder_overrides(*final(b)) == builder_overrides(
                *old(b),
            ).push((t, content_type@)) && builder_defaults(*final(b)) == builder_defaults(*old(b)),
            Err(_) => part_name_in(name@) is None,
        },
{
    let part = office_oxide::core::opc::PartName::new(name)?;
    b.add_override(part, content_type);
    Ok(())
}

/// `ContentTypesBuilder::serialize`, which writes the defaults sorted by
/// extension and the overrides in the order they were added.
#[verifier::external_body]
fn content_types_bytes(b: &office_oxide::core::content_types::ContentTypesBuilder) -> (res: Vec<u8>)
    ensures
        res@ == content_types_xml(builder_defaults(*b), builder_overrides(*b)),
{
    b.serialize()
}

/// The diagnostic text of a packaging failure: `Error`'s `Display`.
/// Nothing is claimed of the text.
#[verifier::external_body]
fn package_error_text(error: &office_oxide::core::Error) -> String {
    error.to_string()
}

/// Whether a relationship part can take relationship `id` of type
/// `rel_type`: it parses, and no relationship has that Id or that type.
pub open spec fn can_relate(data: Seq<u8>, id: Seq<char>, rel_type: Seq<char>) -> bool {
    &&& relationships_in(data) is Some
    &&& !has_id(relationships_in(data).unwrap(), id)
    &&& !has_type(relationships_in(data).unwrap(), rel_type)
}

/// A relationship part with relationship `id` of type `rel_type` to the
/// package-internal `target` added after those of `data`.
pub open spec fn related_part(data: Seq<u8>, id: Seq<char>, rel_type: Seq<char>, target: Seq<char>) -> Seq<u8> {
    relationships_xml(relationships_in(data).unwrap().push((id, rel_type, target, false)))
}

/// A relationship part that holds relationship `id` of type `rel_type` to
/// the package-internal `target` alone.
pub open spec fn single_relationship_part(id: Seq<char>, rel_type: Seq<char>, target: Seq<char>) -> Seq<u8> {
    relationships_xml(seq![(id, rel_type, target, false)])
}

/// Whether override map `m` names part `t`, without regard to ASCII case.
pub open spec fn overrides_part(m: Map<Seq<char>, Seq<char>>, t: Seq<char>) -> bool {
    exists|k: Seq<char>| #[trigger] m.dom().contains(k) && ascii_lower(k) == ascii_lower(t)
}

/// Whether a content-type table can take an override for part `name`: it
/// parses, the part name is valid, and no override names that part yet.
pub open spec fn can_declare(data: Seq<u8>, name: Seq<char>) -> bool {
    &&& content_types_in(data) is Some
    &&& part_name_in(name) is Some
    &&& !overrides_part(content_types_in(data).unwrap().1, part_name_in(name).unwrap())
}

/// Whether `out` is the content-type table of `data` written back with an
/// override of `content_type` for part `name` after its own overrides, which
/// come in some order.
pub open spec fn declared_part(data: Seq<u8>, name: Seq<char>, content_type: Seq<char>, out: Seq<u8>) -> bool {
    exists|s: Seq<(Seq<char>, Seq<char>)>|
        #![trigger lists_map(s, content_types_in(data).unwrap().1)]
        lists_map(s, content_types_in(data).unwrap().1) && out == content_types_xml(
            standard_defaults().union_prefer_right(content_types_in(data).unwrap().0),
            s.push((part_name_in(name).unwrap(), content_type)),
        )
}

/// Adds relationship `rel_id` of type `rel_type` to the package-internal
/// `target` to relationship part `data`, refusing a part that already has
/// that Id or a relationship of that type.
pub fn relate_part(data: &[u8], rel_id: &str, rel_type: &str, target: &str, what: &str) -> (res: Result<
    Vec<u8>,
    String,
>)
    ensures
        res is Ok <==> can_relate(data@, rel_id@, rel_type@),
        res matches Ok(b) ==> b@ == related_part(data@, rel_id@, rel_type@, target@),
        (relationships_in(data@) is Some && !can_relate(data@, rel_id@, rel_type@)) ==> (res matches Err(m) && m@
            == "generated DOCX already contains a "@ + what@ + " relationship"@),
{
    let parsed = match parse_relationships(data) {
        Ok(r) => r,
        Err(error) => {
            return Err(package_error_text(&error));
        },
    };
    if has_relationship_id(&parsed, rel_id) || has_relationship_type(&parsed, rel_type) {
        let mut text = message("generated DOCX already contains a ");
        append_str(&mut text, what);
        append_str(&mut text, " relationship");
        return Err(text);
    }
    let ghost entries = relationship_entries(parsed);
    let mut builder = new_relationships_builder();
    let count = relationship_count(&parsed);
    let mut index: usize = 0;
    while index < count
        invariant
            index <= count,
            count == entries.len(),
            entries == relationship_entries(parsed),
            builder_relationships(builder) == entries.take(index as int),
        decreases count - index,
    {
        let (id, kind, to, external) = relationship_at(&parsed, index);
        add_relationship(&mut builder, id.as_str(), kind.as_str(), to.as_str(), external);
        proof {
            assert(entries.take(index as int + 1) =~= entries.take(index as int).push(entries[index as int]));
        }
        index = index + 1;
    }
    add_relationship(&mut builder, rel_id, rel_type, target, false);
    proof {
        assert(entries.take(count as int) =~= entries);
    }
    Ok(relationships_bytes(&builder))
}

/// A new relationship part that holds relationship `rel_id` of type
/// `rel_type` to the package-internal `target`.
pub fn new_relationship_part(rel_id: &str, rel_type: &str, target: &str) -> (res: Vec<u8>)
    ensures
        res@ == single_relationship_part(rel_id@, rel_type@, target@),
{
    let mut builder = new_relationships_builder();
    add_relationship(&mut builder, rel_id, rel_type, target, false);
    proof {
        assert(Seq::<RelView>::empty().push((rel_id@, rel_type@, target@, false)) =~= seq![
            (rel_id@, rel_type@, target@, false),
        ]);
    }
    relationships_bytes(&builder)
}

/// Declares `content_type` for part `part_name` in content-type table
/// `data`, refusing a table that already declares that part.
pub fn declare_part(data: &[u8], part_name: &str, content_type: &str, what: &str) -> (res: Result<Vec<u8>, String>)
    ensures
        res is Ok <==> can_declare(data@, part_name@),
        res matches Ok(b) ==> declared_part(data@, part_name@, content_type@, b@),
        (content_types_in(data@) is Some && part_name_in(part_name@) is Some && !can_declare(data@, part_name@))
            ==> (res matches Err(m) && m@ == "generated DOCX already declares a "@ + what@ + " content type"@),
{
    let parsed = match parse_content_types(data) {
        Ok(c) => c,
        Err(error) => {
            return Err(package_error_text(&error));
        },
    };
    match declares_part(&parsed, part_name) {
        Ok(true) => {
            let mut text = message("generated DOCX already declares a ");
            append_str(&mut text, what);
            append_str(&mut text, " content type");
            return Err(text);
        },
        Ok(false) => {},
        Err(error) => {
            return Err(package_error_text(&error));
        },
    }
    let mut builder = content_types_builder(&parsed);
    let ghost listed = builder_overrides(builder);
    match add_content_type_override(&mut builder, part_name, content_type) {
        Ok(()) => {},
        Err(error) => {
            return Err(package_error_text(&error));
        },
    }
    let out = content_types_bytes(&builder);
    proof {
        assert(lists_map(listed, content_types_in(data@).unwrap().1));
    }
    Ok(out)
}

} // verus!

//! What a `package.json` declares.
use crate::makefile;
use crate::names;
use crate::text;
use vstd::prelude::*;
use vstd::string::*;

verus! {

/// A JSON value of `serde_json`.
#[verifier::external_type_specification]
#[verifier::external_body]
pub struct ExValue(serde_json::Value);

/// An error of `serde_json`.
#[verifier::external_type_specification]
#[verifier::external_body]
pub struct ExError(serde_json::Error);

/// The fields of a JSON object in `serde_json`.
#[verifier::external_type_specification]
#[verifier::external_body]
#[verifier::reject_recursive_types(K)]
#[verifier::reject_recursive_types(V)]
pub struct ExMap<K, V>(serde_json::Map<K, V>);

/// A JSON value as far as a manifest is read: an object with its fields, or
/// anything else.
pub enum Json {
    Other,
    Object(Map<Seq<char>, Json>),
}

/// What a value holds.
pub uninterp spec fn value_json(value: serde_json::Value) -> Json;

/// What the fields of an object hold.
pub uninterp spec fn map_json(map: serde_json::Map<String, serde_json::Value>) -> Map<
    Seq<char>,
    Json,
>;

/// The message of an error.
pub uninterp spec fn error_text(error: serde_json::Error) -> Seq<char>;

/// The value that a text spells, or the message of the error in it.
pub uninterp spec fn json_parse(text: Seq<char>) -> Result<Json, Seq<char>>;

/// `serde_json::from_str` into a `Value`. Whether a text is read, what value it
/// spells and what the error says depend on the text alone.
#[verifier::external_body]
fn parse_json(text: &str) -> (r: Result<serde_json::Value, serde_json::Error>)
    ensures
        match r {
            Ok(value) => json_parse(text@) == Ok::<Json, Seq<char>>(value_json(value)),
            Err(error) => json_parse(text@) == Err::<Json, Seq<char>>(error_text(error)),
        },
{
    serde_json::from_str(text)
}

/// The `Display` text of a `serde_json::Error`.
#[verifier::external_body]
fn json_error_text(error: &serde_json::Error) -> (r: String)
    ensures
        r@ == error_text(*error),
{
    error.to_string()
}

/// `serde_json::Value::get` with a string: the field of that name, where the
/// value is an object that has one.
#[verifier::external_body]
fn json_get<'a>(value: &'a serde_json::Value, key: &str) -> (r: Option<&'a serde_json::Value>)
    ensures
        match (value_json(*value), r) {
            (Json::Object(fields), Some(field)) => fields.contains_key(key@) && value_json(*field)
                == fields[key@],
            (Json::Object(fields), None) => !fields.contains_key(key@),
            (Json::Other, _) => r is None,
        },
{
    value.get(key)
}

/// `serde_json::Value::as_object`: the fields of a value that is an object.
#[verifier::external_body]
fn json_object(value: &serde_json::Value) -> (r: Option<
    &serde_json::Map<String, serde_json::Value>,
>)
    ensures
        match (value_json(*value), r) {
            (Json::Object(fields), Some(map)) => map_json(*map) == fields,
            (Json::Object(_), None) => false,
            (Json::Other, _) => r is None,
        },
{
    value.as_object()
}

/// `serde_json::Map::keys`: the names of the fields, each once, in some order.
#[verifier::external_body]
fn json_keys(map: &serde_json::Map<String, serde_json::Value>) -> (r: Vec<String>)
    ensures
        names::texts(r@).no_duplicates(),
        forall|t: Seq<char>| #[trigger]
            names::texts(r@).contains(t) <==> map_json(*map).contains_key(t),
{
    map.keys().cloned().collect()
}

// ---------------------------------------------------------------------------
// The sections of a manifest
// ---------------------------------------------------------------------------

/// The names that the sections of a manifest declare.
#[derive(Debug)]
pub struct ManifestSections {
    pub scripts: Vec<String>,
    pub dependencies: Vec<String>,
    pub dev_dependencies: Vec<String>,
    pub peer_dependencies: Vec<String>,
}

/// What a manifest tells of a Node project.
#[derive(Debug)]
pub struct NodeManifestInfo {
    pub scripts: Vec<String>,
    pub has_next: bool,
    pub has_vue: bool,
}

/// The fields of a value, where it is an object.
pub open spec fn fields_of(json: Json) -> Map<Seq<char>, Json> {
    match json {
        Json::Object(fields) => fields,
        Json::Other => Map::empty(),
    }
}

/// The value has an object in the field `section`, and that has a field
/// `name`.
pub open spec fn section_declares(json: Json, section: Seq<char>, name: Seq<char>) -> bool {
    fields_of(json).contains_key(section) && fields_of(fields_of(json)[section]).contains_key(name)
}

/// The list holds the names that a section declares.
pub open spec fn lists_section(list: Seq<Seq<char>>, json: Json, section: Seq<char>) -> bool {
    forall|t: Seq<char>| #[trigger] list.contains(t) <==> section_declares(json, section, t)
}

/// The sections are those of a manifest.
pub open spec fn sections_of(s: ManifestSections, json: Json) -> bool {
    &&& lists_section(names::texts(s.scripts@), json, "scripts"@)
    &&& lists_section(names::texts(s.dependencies@), json, "dependencies"@)
    &&& lists_section(names::texts(s.dev_dependencies@), json, "devDependencies"@)
    &&& lists_section(names::texts(s.peer_dependencies@), json, "peerDependencies"@)
}

fn section_names(value: &serde_json::Value, section: &str) -> (r: Vec<String>)
    ensures
        lists_section(names::texts(r@), value_json(*value), section@),
{
    match json_get(value, section) {
        Some(field) => match json_object(field) {
            Some(map) => json_keys(map),
            None => {
                let none: Vec<String> = Vec::new();
                assert(names::texts(none@).len() == 0);
                none
            },
        },
        None => {
            let none: Vec<String> = Vec::new();
            assert(names::texts(none@).len() == 0);
            none
        },
    }
}

/// The sections of a manifest that was read.
fn manifest_sections(value: &serde_json::Value) -> (r: ManifestSections)
    ensures
        sections_of(r, value_json(*value)),
{
    ManifestSections {
        scripts: section_names(value, "scripts"),
        dependencies: section_names(value, "dependencies"),
        dev_dependencies: section_names(value, "devDependencies"),
        peer_dependencies: section_names(value, "peerDependencies"),
    }
}

/// One of the dependency sections declares `name`.
pub open spec fn sections_depend_on(s: ManifestSections, name: Seq<char>) -> bool {
    ||| names::texts(s.dependencies@).contains(name)
    ||| names::texts(s.dev_dependencies@).contains(name)
    ||| names::texts(s.peer_dependencies@).contains(name)
}

fn depends_on(s: &ManifestSections, name: &str) -> (r: bool)
    ensures
        r == sections_depend_on(*s, name@),
{
    names::has_name(s.dependencies.as_slice(), name) || names::has_name(
        s.dev_dependencies.as_slice(),
        name,
    ) || names::has_name(s.peer_dependencies.as_slice(), name)
}

/// The names of a list, in order, each once.
pub fn sorted_names(list: &Vec<String>) -> (r: Vec<String>)
    ensures
        names::strictly_sorted(names::texts(r@)),
        forall|t: Seq<char>| #[trigger]
            names::texts(r@).contains(t) <==> names::texts(list@).contains(t),
{
    let mut set = names::NameSet::new();
    let n = list.len();
    let ghost all = names::texts(list@);
    for i in 0..n
        invariant
            n == list@.len(),
            all == names::texts(list@),
            set.wf(),
            forall|t: Seq<char>| #[trigger]
                set@.contains(t) <==> all.take(i as int).contains(t),
    {
        let ghost was = set@;
        set.insert(list[i].clone());
        proof {
            assert(all.take(i + 1) == all.take(i as int).push(all[i as int]));
            assert forall|t: Seq<char>| #[trigger]
                set@.contains(t) <==> all.take(i + 1).contains(t) by {
                text::lemma_contains_push(all.take(i as int), all[i as int], t);
                assert(was.contains(t) <==> all.take(i as int).contains(t));
            }
        }
    }
    assert(all.take(n as int) == all);
    set.into_names()
}

/// What the sections of a manifest tell: its scripts, in order, and whether it
/// depends on Next.js or Vue.
pub fn manifest_info(sections: &ManifestSections) -> (r: NodeManifestInfo)
    ensures
        names::strictly_sorted(names::texts(r.scripts@)),
        forall|t: Seq<char>| #[trigger]
            names::texts(r.scripts@).contains(t) <==> names::texts(sections.scripts@).contains(t),
        r.has_next == sections_depend_on(*sections, "next"@),
        r.has_vue == sections_depend_on(*sections, "vue"@),
{
    NodeManifestInfo {
        scripts: sorted_names(&sections.scripts),
        has_next: depends_on(sections, "next"),
        has_vue: depends_on(sections, "vue"),
    }
}

/// One of the dependency sections of a manifest declares `name`.
pub open spec fn json_depends_on(json: Json, name: Seq<char>) -> bool {
    ||| section_declares(json, "dependencies"@, name)
    ||| section_declares(json, "devDependencies"@, name)
    ||| section_declares(json, "peerDependencies"@, name)
}

/// The information is that of a manifest.
pub open spec fn describes(info: NodeManifestInfo, json: Json) -> bool {
    &&& names::strictly_sorted(names::texts(info.scripts@))
    &&& lists_section(names::texts(info.scripts@), json, "scripts"@)
    &&& info.has_next == json_depends_on(json, "next"@)
    &&& info.has_vue == json_depends_on(json, "vue"@)
}

/// What is said of a manifest that is no JSON.
pub open spec fn invalid_manifest(path: Seq<char>, error: Seq<char>) -> Seq<char> {
    "invalid "@ + path + ": "@ + error
}

/// Says that a manifest is no JSON.
pub fn invalid_message(path: &str, error: &str) -> (r: String)
    ensures
        r@ == invalid_manifest(path@, error@),
{
    let mut message = "invalid ".to_owned();
    message.append(path);
    message.append(": ");
    message.append(error);
    message
}

/// What the manifest at `path` tells, given what reading it gave: its text or
/// the error.
pub fn read_node_manifest(path: &str, contents: &Result<String, String>) -> (r: Result<
    NodeManifestInfo,
    String,
>)
    ensures
        match (contents, r) {
            (Ok(manifest), Ok(info)) => json_parse(manifest@) is Ok && describes(
                info,
                json_parse(manifest@)->Ok_0,
            ),
            (Ok(manifest), Err(message)) => json_parse(manifest@) is Err && message@
                == invalid_manifest(path@, json_parse(manifest@)->Err_0),
            (Err(error), Err(message)) => message@ == makefile::unreadable(path@, error@),
            (Err(_), Ok(_)) => false,
        },
{
    match contents {
        Err(error) => Err(makefile::unreadable_message(path, error.as_str())),
        Ok(manifest) => match parse_json(manifest.as_str()) {
            Err(error) => Err(invalid_message(path, json_error_text(&error).as_str())),
            Ok(value) => {
                let sections = manifest_sections(&value);
                Ok(manifest_info(&sections))
            },
        },
    }
}

} // verus!

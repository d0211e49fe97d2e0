//! The registry of supported grammars.
use vstd::prelude::*;

use crate::text::str_eq;

verus! {

/// Calls `tree_sitter_python::LANGUAGE` and converts it into a `Language`.
#[verifier::external_body]
fn python_language() -> tree_sitter::Language {
    tree_sitter_python::LANGUAGE.into()
}

/// Calls `tree_sitter_javascript::LANGUAGE` and converts it into a `Language`.
#[verifier::external_body]
fn javascript_language() -> tree_sitter::Language {
    tree_sitter_javascript::LANGUAGE.into()
}

/// Calls `tree_sitter_rust::LANGUAGE` and converts it into a `Language`.
#[verifier::external_body]
fn rust_language() -> tree_sitter::Language {
    tree_sitter_rust::LANGUAGE.into()
}

/// Reads `tree_sitter_javascript::LOCALS_QUERY`, the grammar's `locals.scm`.
#[verifier::external_body]
fn javascript_locals_query() -> &'static str {
    tree_sitter_javascript::LOCALS_QUERY
}

/// Reads `tree_sitter_python::TAGS_QUERY`, the grammar's `tags.scm`.
#[verifier::external_body]
fn python_tags_query() -> &'static str {
    tree_sitter_python::TAGS_QUERY
}

/// Reads `tree_sitter_javascript::TAGS_QUERY`, the grammar's `tags.scm`.
#[verifier::external_body]
fn javascript_tags_query() -> &'static str {
    tree_sitter_javascript::TAGS_QUERY
}

/// Reads `tree_sitter_rust::TAGS_QUERY`, the grammar's `tags.scm`.
#[verifier::external_body]
fn rust_tags_query() -> &'static str {
    tree_sitter_rust::TAGS_QUERY
}

/// A registered grammar: its name, file extensions and embedded queries.
pub struct LanguageInfo {
    pub name: &'static str,
    pub extensions: Vec<&'static str>,
    /// Contents of the grammar's `locals.scm`, if it ships one.
    pub locals_scm: Option<&'static str>,
    /// Contents of the grammar's `tags.scm`, if it ships one.
    pub tags_scm: Option<&'static str>,
}

/// Names of the registered grammars.
pub open spec fn is_registered(name: Seq<char>) -> bool {
    name == "python"@ || name == "javascript"@ || name == "rust"@
}

/// The grammar registered for a file extension (without the dot).
pub open spec fn language_for_extension(ext: Seq<char>) -> Option<Seq<char>> {
    if ext == "py"@ || ext == "pyi"@ {
        Some("python"@)
    } else if ext == "js"@ || ext == "mjs"@ || ext == "cjs"@ {
        Some("javascript"@)
    } else if ext == "rs"@ {
        Some("rust"@)
    } else {
        None
    }
}

/// The file extensions each registered grammar is listed with (see
/// `list_languages`), as (grammar, extension) pairs.
pub open spec fn listed_extensions() -> Seq<(Seq<char>, Seq<char>)> {
    seq![
        ("python"@, "py"@),
        ("python"@, "pyi"@),
        ("javascript"@, "js"@),
        ("javascript"@, "mjs"@),
        ("javascript"@, "cjs"@),
        ("rust"@, "rs"@),
    ]
}

/// Looking a file up by extension agrees with the listing: every listed
/// extension resolves to the grammar it is listed with, and an extension
/// resolves to a grammar only when it is listed with that grammar.
pub proof fn law_extensions_resolve_as_listed(ext: Seq<char>)
    ensures
        forall|i: int|
            0 <= i < listed_extensions().len() ==> language_for_extension(
                #[trigger] listed_extensions()[i].1,
            ) == Some(listed_extensions()[i].0),
        language_for_extension(ext) matches Some(n) ==> listed_extensions().contains((n, ext)),
{
    reveal_strlit("py");
    reveal_strlit("pyi");
    reveal_strlit("js");
    reveal_strlit("mjs");
    reveal_strlit("cjs");
    reveal_strlit("rs");
    let l = listed_extensions();
    assert(l[0] == ("python"@, "py"@));
    assert(l[1] == ("python"@, "pyi"@));
    assert(l[2] == ("javascript"@, "js"@));
    assert(l[3] == ("javascript"@, "mjs"@));
    assert(l[4] == ("javascript"@, "cjs"@));
    assert(l[5] == ("rust"@, "rs"@));
    assert forall|i: int| 0 <= i < l.len() implies language_for_extension(#[trigger] l[i].1) == Some(l[i].0) by {
        if i == 0 {
            assert(language_for_extension("py"@) == Some("python"@));
        } else if i == 1 {
            assert(language_for_extension("pyi"@) == Some("python"@));
        } else if i == 2 {
            assert("js"@[0] != "py"@[0]);
            assert(language_for_extension("js"@) == Some("javascript"@));
        } else if i == 3 {
            assert("mjs"@[0] != "pyi"@[0]);
            assert(language_for_extension("mjs"@) == Some("javascript"@));
        } else if i == 4 {
            assert("cjs"@[0] != "pyi"@[0]);
            assert(language_for_extension("cjs"@) == Some("javascript"@));
        } else {
            assert("rs"@[0] != "py"@[0]);
            assert("rs"@[0] != "js"@[0]);
            assert(language_for_extension("rs"@) == Some("rust"@));
        }
    }
    if ext == "py"@ {
        assert(l[0] == ("python"@, ext));
    } else if ext == "pyi"@ {
        assert(l[1] == ("python"@, ext));
    } else if ext == "js"@ {
        assert(l[2] == ("javascript"@, ext));
    } else if ext == "mjs"@ {
        assert(l[3] == ("javascript"@, ext));
    } else if ext == "cjs"@ {
        assert(l[4] == ("javascript"@, ext));
    } else if ext == "rs"@ {
        assert(l[5] == ("rust"@, ext));
    }
}

/// Look up a grammar by name. Returns `None` for unregistered names.
pub fn get_language(name: &str) -> (r: Option<tree_sitter::Language>)
    ensures
        r is Some <==> is_registered(name@),
{
    if str_eq(name, "python") {
        Some(python_language())
    } else if str_eq(name, "javascript") {
        Some(javascript_language())
    } else if str_eq(name, "rust") {
        Some(rust_language())
    } else {
        None
    }
}

/// Look up a grammar by file extension; returns its name and the grammar.
pub fn get_language_by_extension(ext: &str) -> (r: Option<(&'static str, tree_sitter::Language)>)
    ensures
        match r {
            Some((name, _)) => language_for_extension(ext@) == Some(name@),
            None => language_for_extension(ext@) is None,
        },
{
    if str_eq(ext, "py") || str_eq(ext, "pyi") {
        Some(("python", python_language()))
    } else if str_eq(ext, "js") || str_eq(ext, "mjs") || str_eq(ext, "cjs") {
        Some(("javascript", javascript_language()))
    } else if str_eq(ext, "rs") {
        Some(("rust", rust_language()))
    } else {
        None
    }
}

/// All registered grammars, in registration order.
pub fn list_languages() -> (r: Vec<LanguageInfo>)
    ensures
        r@.len() == 3,
        r@[0].name@ == "python"@,
        r@[1].name@ == "javascript"@,
        r@[2].name@ == "rust"@,
        r@[0].locals_scm is None,
        r@[1].locals_scm is Some,
        r@[2].locals_scm is None,
        forall|i: int| 0 <= i < 3 ==> #[trigger] r@[i].tags_scm is Some,
        r@[0].extensions@.len() == 2,
        r@[0].extensions@[0]@ == "py"@,
        r@[0].extensions@[1]@ == "pyi"@,
        r@[1].extensions@.len() == 3,
        r@[1].extensions@[0]@ == "js"@,
        r@[1].extensions@[1]@ == "mjs"@,
        r@[1].extensions@[2]@ == "cjs"@,
        r@[2].extensions@.len() == 1,
        r@[2].extensions@[0]@ == "rs"@,
        forall|i: int, j: int|
            0 <= i < r@.len() && 0 <= j < r@[i].extensions@.len() ==> listed_extensions().contains(
                (r@[i].name@, #[trigger] r@[i].extensions@[j]@),
            ),
{
    let mut r: Vec<LanguageInfo> = Vec::new();
    let mut py: Vec<&'static str> = Vec::new();
    py.push("py");
    py.push("pyi");
    r.push(
        LanguageInfo {
            name: "python",
            extensions: py,
            locals_scm: None,
            tags_scm: Some(python_tags_query()),
        },
    );
    let mut js: Vec<&'static str> = Vec::new();
    js.push("js");
    js.push("mjs");
    js.push("cjs");
    r.push(
        LanguageInfo {
            name: "javascript",
            extensions: js,
            locals_scm: Some(javascript_locals_query()),
            tags_scm: Some(javascript_tags_query()),
        },
    );
    let mut rs: Vec<&'static str> = Vec::new();
    rs.push("rs");
    r.push(
        LanguageInfo {
            name: "rust",
            extensions: rs,
            locals_scm: None,
            tags_scm: Some(rust_tags_query()),
        },
    );
    proof {
        let l = listed_extensions();
        assert(l[0] == ("python"@, "py"@));
        assert(l[1] == ("python"@, "pyi"@));
        assert(l[2] == ("javascript"@, "js"@));
        assert(l[3] == ("javascript"@, "mjs"@));
        assert(l[4] == ("javascript"@, "cjs"@));
        assert(l[5] == ("rust"@, "rs"@));
        assert forall|i: int, j: int|
            0 <= i < r@.len() && 0 <= j < r@[i].extensions@.len() implies listed_extensions().contains(
                (r@[i].name@, #[trigger] r@[i].extensions@[j]@),
            ) by {
            if i == 0 {
                if j == 0 { assert(l[0] == (r@[i].name@, r@[i].extensions@[j]@)); }
                else { assert(l[1] == (r@[i].name@, r@[i].extensions@[j]@)); }
            } else if i == 1 {
                if j == 0 { assert(l[2] == (r@[i].name@, r@[i].extensions@[j]@)); }
                else if j == 1 { assert(l[3] == (r@[i].name@, r@[i].extensions@[j]@)); }
                else { assert(l[4] == (r@[i].name@, r@[i].extensions@[j]@)); }
            } else {
                assert(l[5] == (r@[i].name@, r@[i].extensions@[j]@));
            }
        }
    }
    r
}

#[verifier::external_type_specification]
#[verifier::external_body]
pub struct ExJsonValue(serde_json::Value);

/// Reads `tree_sitter_python::NODE_TYPES`, the grammar's `node-types.json`.
#[verifier::external_body]
fn python_node_types() -> &'static str {
    tree_sitter_python::NODE_TYPES
}

/// Reads `tree_sitter_javascript::NODE_TYPES`, the grammar's `node-types.json`.
#[verifier::external_body]
fn javascript_node_types() -> &'static str {
    tree_sitter_javascript::NODE_TYPES
}

/// Reads `tree_sitter_rust::NODE_TYPES`, the grammar's `node-types.json`.
#[verifier::external_body]
fn rust_node_types() -> &'static str {
    tree_sitter_rust::NODE_TYPES
}

/// A JSON value as plain values. Numbers keep their text; an object keeps
/// its members in the order `serde_json` lists them (by key).
pub enum Json {
    Null,
    Bool(bool),
    Number(String),
    Text(String),
    Array(Vec<Json>),
    Object(Vec<(String, Json)>),
}

/// What `serde_json::from_str` reads from `text` as a `serde_json::Value`,
/// as a plain `Json` value; `None` when the text is not JSON.
pub uninterp spec fn json_value(text: Seq<char>) -> Option<Json>;

/// Converts a `serde_json::Value` to `Json`, variant by variant.
#[verifier::external_body]
fn json_model(v: &serde_json::Value) -> Json {
    match v {
        serde_json::Value::Null => Json::Null,
        serde_json::Value::Bool(b) => Json::Bool(*b),
        serde_json::Value::Number(n) => Json::Number(n.to_string()),
        serde_json::Value::String(t) => Json::Text(t.clone()),
        serde_json::Value::Array(a) => Json::Array(a.iter().map(json_model).collect()),
        serde_json::Value::Object(m) => Json::Object(
            m.iter().map(|(k, x)| (k.clone(), json_model(x))).collect(),
        ),
    }
}

/// Calls `serde_json::from_str` for a `serde_json::Value` and converts it;
/// the result is a function of the text alone, named `json_value`.
#[verifier::external_body]
fn json_parse(text: &str) -> (r: Option<Json>)
    ensures
        r == json_value(text@),
{
    match serde_json::from_str::<serde_json::Value>(text) {
        Ok(v) => Some(json_model(&v)),
        Err(_) => None,
    }
}

/// The first member of `fields` called `key`.
pub open spec fn field(fields: Seq<(String, Json)>, key: Seq<char>) -> Option<Json>
    decreases fields.len(),
{
    if fields.len() == 0 {
        None
    } else if fields[0].0@ == key {
        Some(fields[0].1)
    } else {
        field(fields.drop_first(), key)
    }
}

/// The member `key` of an object; `None` for other values.
pub open spec fn member(v: Json, key: Seq<char>) -> Option<Json> {
    match v {
        Json::Object(fields) => field(fields@, key),
        _ => None,
    }
}

/// The text of a string value.
pub open spec fn text_of(v: Option<Json>) -> Option<Seq<char>> {
    match v {
        Some(Json::Text(t)) => Some(t@),
        _ => None,
    }
}

/// The `type` of each element of a `subtypes` array whose `named` is true,
/// in order.
pub open spec fn named_types(subs: Seq<Json>) -> Seq<Seq<char>>
    decreases subs.len(),
{
    if subs.len() == 0 {
        Seq::empty()
    } else {
        let rest = named_types(subs.drop_last());
        let e = subs.last();
        if member(e, "named"@) == Some(Json::Bool(true)) && text_of(member(e, "type"@)) is Some {
            rest.push(text_of(member(e, "type"@))->0)
        } else {
            rest
        }
    }
}

/// The supertype declarations among `entries`, in order: each entry with a
/// `type` and a `subtypes` array, with the types of its named subtypes;
/// entries without a named subtype are left out.
pub open spec fn supertype_entries(entries: Seq<Json>) -> Seq<(Seq<char>, Seq<Seq<char>>)>
    decreases entries.len(),
{
    if entries.len() == 0 {
        Seq::empty()
    } else {
        let rest = supertype_entries(entries.drop_last());
        let e = entries.last();
        match (text_of(member(e, "type"@)), member(e, "subtypes"@)) {
            (Some(n), Some(Json::Array(subs))) => if named_types(subs@).len() > 0 {
                rest.push((n, named_types(subs@)))
            } else {
                rest
            },
            _ => rest,
        }
    }
}

/// The supertype declarations of a `node-types.json` text.
pub open spec fn node_types_supertypes(text: Seq<char>) -> Seq<(Seq<char>, Seq<Seq<char>>)> {
    match json_value(text) {
        Some(Json::Array(entries)) => supertype_entries(entries@),
        _ => Seq::empty(),
    }
}

/// A list of mappings as plain values.
pub open spec fn mappings_view(r: Seq<(String, Vec<String>)>) -> Seq<(Seq<char>, Seq<Seq<char>>)> {
    r.map_values(|e: (String, Vec<String>)| (e.0@, e.1@.map_values(|t: String| t@)))
}

/// The member `key` of an object, found by scanning its members in order.
fn json_get<'a>(v: &'a Json, key: &str) -> (r: Option<&'a Json>)
    ensures
        match r {
            Some(x) => member(*v, key@) == Some(*x),
            None => member(*v, key@) is None,
        },
{
    match v {
        Json::Object(fields) => {
            let mut i: usize = 0;
            assert(fields@.skip(0) =~= fields@);
            while i < fields.len()
                invariant
                    i <= fields@.len(),
                    *v == Json::Object(*fields),
                    field(fields@, key@) == field(fields@.skip(i as int), key@),
                decreases fields@.len() - i,
            {
                proof {
                    assert(fields@.skip(i as int).drop_first() =~= fields@.skip(i + 1));
                }
                assert(fields@.skip(i as int)[0] == fields@[i as int]);
                if str_eq(fields[i].0.as_str(), key) {
                    assert(fields@[i as int].0@ == key@);
                    assert(field(fields@.skip(i as int), key@) == Some(fields@[i as int].1));
                    assert(member(*v, key@) == field(fields@, key@));
                    return Some(&fields[i].1);
                }
                i = i + 1;
            }
            None
        },
        _ => None,
    }
}

/// The text of a string value.
fn json_str(v: Option<&Json>) -> (r: Option<String>)
    ensures
        match r {
            Some(t) => text_of(
                match v {
                    Some(x) => Some(*x),
                    None => None,
                },
            ) == Some(t@),
            None => text_of(
                match v {
                    Some(x) => Some(*x),
                    None => None,
                },
            ) is None,
        },
{
    match v {
        Some(Json::Text(t)) => Some(t.clone()),
        _ => None,
    }
}

/// The named subtypes listed in one `subtypes` array: the `type` of each
/// element whose `named` is true.
fn named_subtypes(subtypes: &Vec<Json>) -> (r: Vec<String>)
    ensures
        r@.map_values(|t: String| t@) == named_types(subtypes@),
{
    let mut names: Vec<String> = Vec::new();
    let mut j: usize = 0;
    while j < subtypes.len()
        invariant
            j <= subtypes@.len(),
            names@.map_values(|t: String| t@) == named_types(subtypes@.take(j as int)),
        decreases subtypes@.len() - j,
    {
        proof {
            assert(subtypes@.take(j + 1).drop_last() =~= subtypes@.take(j as int));
        }
        let e = &subtypes[j];
        let named = match json_get(e, "named") {
            Some(Json::Bool(b)) => *b,
            _ => false,
        };
        let name = json_str(json_get(e, "type"));
        proof {
            reveal_strlit("named");
            reveal_strlit("type");
        }
        if named {
            match name {
                Some(n) => {
                    let ghost before = names@;
                    names.push(n);
                    proof {
                        assert(names@.map_values(|t: String| t@) =~= before.map_values(
                            |t: String| t@,
                        ).push(n@));
                    }
                },
                None => {},
            }
        }
        j = j + 1;
    }
    proof {
        assert(subtypes@.take(subtypes@.len() as int) =~= subtypes@);
    }
    names
}

/// The supertype declarations of a `node-types.json` text: for each entry
/// with a `subtypes` array, its `type` and the types of its named subtypes,
/// in file order; entries without named subtypes are left out, and so is
/// everything when the text is not a JSON array.
pub fn node_types_supertypes_of(text: &str) -> (r: Vec<(String, Vec<String>)>)
    ensures
        mappings_view(r@) == node_types_supertypes(text@),
{
    let mut r: Vec<(String, Vec<String>)> = Vec::new();
    let parsed = json_parse(text);
    let entries = match &parsed {
        Some(Json::Array(es)) => es,
        _ => {
            assert(mappings_view(r@) =~= Seq::empty());
            return r;
        },
    };
    let mut i: usize = 0;
    while i < entries.len()
        invariant
            i <= entries@.len(),
            parsed == json_value(text@),
            parsed == Some(Json::Array(*entries)),
            mappings_view(r@) == supertype_entries(entries@.take(i as int)),
        decreases entries@.len() - i,
    {
        proof {
            assert(entries@.take(i + 1).drop_last() =~= entries@.take(i as int));
            reveal_strlit("subtypes");
            reveal_strlit("type");
        }
        let e = &entries[i];
        let name = json_str(json_get(e, "type"));
        match (name, json_get(e, "subtypes")) {
            (Some(n), Some(Json::Array(subs))) => {
                let names = named_subtypes(subs);
                if names.len() > 0 {
                    let ghost before = r@;
                    r.push((n, names));
                    proof {
                        assert(mappings_view(r@) =~= mappings_view(before).push(
                            (n@, names@.map_values(|t: String| t@)),
                        ));
                    }
                }
            },
            _ => {},
        }
        i = i + 1;
    }
    proof {
        assert(entries@.take(entries@.len() as int) =~= entries@);
    }
    r
}

/// Supertype declarations of the named grammar's `node-types.json`: for
/// each entry with a `subtypes` array, its `type` and the types of its named
/// subtypes, in file order; entries without named subtypes are left out.
/// Unregistered grammars have none. (The grammar's text is a constant of its
/// crate; `node_types_supertypes_of` states the reading exactly.)
pub fn get_node_types_supertypes(name: &str) -> (r: Vec<(String, Vec<String>)>)
    ensures
        !is_registered(name@) ==> r@.len() == 0,
        is_registered(name@) ==> exists|text: Seq<char>| #[trigger] node_types_supertypes(text) == mappings_view(r@),
        forall|i: int| 0 <= i < r@.len() ==> #[trigger] r@[i].1@.len() > 0,
{
    let text = if str_eq(name, "python") {
        python_node_types()
    } else if str_eq(name, "javascript") {
        javascript_node_types()
    } else if str_eq(name, "rust") {
        rust_node_types()
    } else {
        return Vec::new();
    };
    let r = node_types_supertypes_of(text);
    proof {
        lemma_entries_nonempty(text@);
        assert forall|i: int| 0 <= i < r@.len() implies #[trigger] r@[i].1@.len() > 0 by {
            assert(mappings_view(r@)[i].1.len() == r@[i].1@.len());
        }
    }
    r
}

/// Every declaration read from a text has at least one subtype.
proof fn lemma_entries_nonempty(text: Seq<char>)
    ensures
        forall|i: int|
            0 <= i < node_types_supertypes(text).len() ==> #[trigger] node_types_supertypes(text)[i].1.len() > 0,
{
    match json_value(text) {
        Some(Json::Array(entries)) => lemma_supertype_entries_nonempty(entries@),
        _ => {},
    }
}

proof fn lemma_supertype_entries_nonempty(entries: Seq<Json>)
    ensures
        forall|i: int|
            0 <= i < supertype_entries(entries).len() ==> #[trigger] supertype_entries(entries)[i].1.len() > 0,
    decreases entries.len(),
{
    if entries.len() > 0 {
        lemma_supertype_entries_nonempty(entries.drop_last());
        let rest = supertype_entries(entries.drop_last());
        let e = entries.last();
        match (text_of(member(e, "type"@)), member(e, "subtypes"@)) {
            (Some(n), Some(Json::Array(subs))) => {
                if named_types(subs@).len() > 0 {
                    assert forall|i: int|
                        0 <= i < supertype_entries(entries).len() implies #[trigger] supertype_entries(
                            entries,
                        )[i].1.len() > 0 by {
                        if i < rest.len() {
                            assert(supertype_entries(entries)[i] == rest[i]);
                        }
                    }
                }
            },
            _ => {},
        }
    }
}

} // verus!

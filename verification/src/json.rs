//! A JSON document as plain values.
use vstd::prelude::*;
use crate::grep::{GrepQuery, QueryView};
use crate::order::texts;
use crate::search::{match_views, GrepMatch, GrepMatchView};

verus! {

/// A JSON value; an object keeps its members in order.
#[derive(Debug, PartialEq, Eq)]
pub enum JsonValue {
    Null,
    Bool(bool),
    Number(usize),
    Text(String),
    Array(Vec<JsonValue>),
    Object(Vec<(String, JsonValue)>),
}

/// A JSON value as mathematical values.
pub enum Json {
    Null,
    Bool(bool),
    Number(nat),
    Text(Seq<char>),
    Array(Seq<Json>),
    Object(Seq<(Seq<char>, Json)>),
}

/// The mathematical value of a JSON value.
pub open spec fn json_view(v: JsonValue) -> Json
    decreases v,
{
    match v {
        JsonValue::Null => Json::Null,
        JsonValue::Bool(b) => Json::Bool(b),
        JsonValue::Number(n) => Json::Number(n as nat),
        JsonValue::Text(s) => Json::Text(s@),
        JsonValue::Array(items) => Json::Array(
            Seq::new(items@.len(), |i: int| if 0 <= i < items@.len() { json_view(items@[i]) } else { Json::Null }),
        ),
        JsonValue::Object(fields) => Json::Object(
            Seq::new(
                fields@.len(),
                |i: int| if 0 <= i < fields@.len() { (fields@[i].0@, json_view(fields@[i].1)) } else { (Seq::empty(), Json::Null) },
            ),
        ),
    }
}

/// The members of a JSON object, as mathematical values.
pub open spec fn fields_view(fields: Seq<(String, JsonValue)>) -> Seq<(Seq<char>, Json)> {
    Seq::new(fields.len(), |i: int| (fields[i].0@, json_view(fields[i].1)))
}

/// The items of a JSON array, as mathematical values.
pub open spec fn items_view(items: Seq<JsonValue>) -> Seq<Json> {
    Seq::new(items.len(), |i: int| json_view(items[i]))
}

/// A text, or `null` when there is none.
pub open spec fn opt_text_json(t: Option<Seq<char>>) -> Json {
    match t {
        Some(s) => Json::Text(s),
        None => Json::Null,
    }
}

/// A number, or `null` when there is none.
pub open spec fn opt_number_json(n: Option<usize>) -> Json {
    match n {
        Some(v) => Json::Number(v as nat),
        None => Json::Null,
    }
}

/// An array of texts.
pub open spec fn texts_json(ts: Seq<Seq<char>>) -> Json {
    Json::Array(ts.map_values(|t: Seq<char>| Json::Text(t)))
}

/// The JSON description of one match.
pub open spec fn match_document(m: GrepMatchView) -> Json {
    Json::Object(
        seq![
            ("name"@, Json::Text(m.name)),
            ("type"@, Json::Text(m.entity_type)),
            ("file"@, Json::Text(m.file_path)),
            ("lines"@, Json::Array(seq![Json::Number(m.start_line), Json::Number(m.end_line)])),
            ("parentId"@, opt_text_json(m.parent_id)),
            ("dependencyCount"@, Json::Number(m.dependency_count)),
            ("dependentCount"@, Json::Number(m.dependent_count)),
            ("isTest"@, Json::Bool(m.is_test)),
            ("matchedDependencies"@, texts_json(m.matched_dependencies)),
        ],
    )
}

/// The JSON summary of a search: the number of matches and what the query asked for.
pub open spec fn summary_document(count: nat, q: QueryView) -> Json {
    Json::Object(
        seq![
            ("matches"@, Json::Number(count)),
            ("pattern"@, opt_text_json(q.pattern)),
            ("content"@, Json::Bool(q.content)),
            ("caseSensitive"@, Json::Bool(q.case_sensitive)),
            ("types"@, texts_json(q.entity_types)),
            ("path"@, opt_text_json(q.path_substring)),
            ("tests"@, Json::Bool(q.tests)),
            ("dependsOn"@, texts_json(q.depends_on)),
            ("refKind"@, match q.ref_kind {
                Some(k) => Json::Text(k.name()),
                None => Json::Null,
            }),
            ("minDependencies"@, opt_number_json(q.min_dependencies)),
            ("minDependents"@, opt_number_json(q.min_dependents)),
        ],
    )
}

/// The JSON document of a search: its summary, then each match in order.
pub open spec fn result_document(matches: Seq<GrepMatchView>, q: QueryView) -> Json {
    Json::Object(
        seq![
            ("summary"@, summary_document(matches.len(), q)),
            ("matches"@, Json::Array(matches.map_values(|m: GrepMatchView| match_document(m)))),
        ],
    )
}

/// An array's value is the values of its items.
proof fn lemma_array_view(items: Vec<JsonValue>)
    ensures
        json_view(JsonValue::Array(items)) == Json::Array(items_view(items@)),
{
    match json_view(JsonValue::Array(items)) {
        Json::Array(s) => {
            assert(s =~= items_view(items@));
        },
        _ => {},
    }
}

/// An object's value is the keys and values of its members.
proof fn lemma_object_view(fields: Vec<(String, JsonValue)>)
    ensures
        json_view(JsonValue::Object(fields)) == Json::Object(fields_view(fields@)),
{
    match json_view(JsonValue::Object(fields)) {
        Json::Object(s) => {
            assert(s =~= fields_view(fields@));
        },
        _ => {},
    }
}

/// Appends a member to an object under construction.
fn push_field(fields: &mut Vec<(String, JsonValue)>, key: &str, value: JsonValue)
    ensures
        fields_view(final(fields)@) == fields_view(old(fields)@).push((key@, json_view(value))),
{
    let ghost v = json_view(value);
    fields.push((key.to_owned(), value));
    assert(fields_view(fields@) =~= fields_view(old(fields)@).push((key@, v)));
}

/// Appends an item to an array under construction.
fn push_item(items: &mut Vec<JsonValue>, value: JsonValue)
    ensures
        items_view(final(items)@) == items_view(old(items)@).push(json_view(value)),
{
    let ghost v = json_view(value);
    items.push(value);
    assert(items_view(items@) =~= items_view(old(items)@).push(v));
}

/// A text value.
fn text_json(s: &String) -> (j: JsonValue)
    ensures
        json_view(j) == Json::Text(s@),
{
    JsonValue::Text(s.clone())
}

/// A text value, or `null`.
fn opt_text_value(s: &Option<String>) -> (j: JsonValue)
    ensures
        json_view(j) == opt_text_json(crate::order::opt_text(*s)),
{
    match s {
        Some(t) => text_json(t),
        None => JsonValue::Null,
    }
}

/// A number value, or `null`.
fn opt_number_value(n: Option<usize>) -> (j: JsonValue)
    ensures
        json_view(j) == opt_number_json(n),
{
    match n {
        Some(v) => JsonValue::Number(v),
        None => JsonValue::Null,
    }
}

/// An array of texts.
fn texts_value(v: &Vec<String>) -> (j: JsonValue)
    ensures
        json_view(j) == texts_json(texts(v@)),
{
    let mut items: Vec<JsonValue> = Vec::new();
    let n = v.len();
    for i in 0..n
        invariant
            n == v.len(),
            items_view(items@) == texts(v@).take(i as int).map_values(|t: Seq<char>| Json::Text(t)),
    {
        push_item(&mut items, text_json(&v[i]));
        assert(texts(v@).take(i + 1).map_values(|t: Seq<char>| Json::Text(t)) =~= texts(v@).take(i as int).map_values(
            |t: Seq<char>| Json::Text(t),
        ).push(Json::Text(v@[i as int]@)));
    }
    assert(texts(v@).take(n as int) =~= texts(v@));
    proof {
        lemma_array_view(items);
    }
    JsonValue::Array(items)
}

/// The JSON description of one match.
pub fn match_json(m: &GrepMatch) -> (j: JsonValue)
    ensures
        json_view(j) == match_document(m@),
{
    let mut lines: Vec<JsonValue> = Vec::new();
    push_item(&mut lines, JsonValue::Number(m.start_line));
    push_item(&mut lines, JsonValue::Number(m.end_line));
    proof {
        lemma_array_view(lines);
    }
    assert(items_view(lines@) =~= seq![Json::Number(m.start_line as nat), Json::Number(m.end_line as nat)]);
    let mut f: Vec<(String, JsonValue)> = Vec::new();
    push_field(&mut f, "name", text_json(&m.name));
    push_field(&mut f, "type", text_json(&m.entity_type));
    push_field(&mut f, "file", text_json(&m.file_path));
    push_field(&mut f, "lines", JsonValue::Array(lines));
    push_field(&mut f, "parentId", opt_text_value(&m.parent_id));
    push_field(&mut f, "dependencyCount", JsonValue::Number(m.dependency_count));
    push_field(&mut f, "dependentCount", JsonValue::Number(m.dependent_count));
    push_field(&mut f, "isTest", JsonValue::Bool(m.is_test));
    push_field(&mut f, "matchedDependencies", texts_value(&m.matched_dependencies));
    proof {
        lemma_object_view(f);
    }
    assert(fields_view(f@) =~= match match_document(m@) {
        Json::Object(s) => s,
        _ => Seq::empty(),
    });
    JsonValue::Object(f)
}

/// The JSON summary of a search with `count` matches for `query`.
pub fn summary_json(count: usize, query: &GrepQuery) -> (j: JsonValue)
    ensures
        json_view(j) == summary_document(count as nat, query@),
{
    let kind = match query.ref_kind {
        Some(k) => JsonValue::Text(k.as_str().to_owned()),
        None => JsonValue::Null,
    };
    let mut f: Vec<(String, JsonValue)> = Vec::new();
    push_field(&mut f, "matches", JsonValue::Number(count));
    push_field(&mut f, "pattern", opt_text_value(&query.pattern));
    push_field(&mut f, "content", JsonValue::Bool(query.content));
    push_field(&mut f, "caseSensitive", JsonValue::Bool(query.case_sensitive));
    push_field(&mut f, "types", texts_value(&query.entity_types));
    push_field(&mut f, "path", opt_text_value(&query.path_substring));
    push_field(&mut f, "tests", JsonValue::Bool(query.tests));
    push_field(&mut f, "dependsOn", texts_value(&query.depends_on));
    push_field(&mut f, "refKind", kind);
    push_field(&mut f, "minDependencies", opt_number_value(query.min_dependencies));
    push_field(&mut f, "minDependents", opt_number_value(query.min_dependents));
    proof {
        lemma_object_view(f);
    }
    assert(fields_view(f@) =~= match summary_document(count as nat, query@) {
        Json::Object(s) => s,
        _ => Seq::empty(),
    });
    JsonValue::Object(f)
}

/// The JSON document of a search: a summary of the query and the number of
/// matches, then the description of each match, in order.
pub fn result_json(matches: &Vec<GrepMatch>, query: &GrepQuery) -> (doc: JsonValue)
    ensures
        json_view(doc) == result_document(match_views(matches@), query@),
{
    let n = matches.len();
    let mut items: Vec<JsonValue> = Vec::new();
    for i in 0..n
        invariant
            n == matches.len(),
            items_view(items@) == match_views(matches@).take(i as int).map_values(|m: GrepMatchView| match_document(m)),
    {
        push_item(&mut items, match_json(&matches[i]));
        assert(match_views(matches@).take(i + 1).map_values(|m: GrepMatchView| match_document(m)) =~= match_views(
            matches@,
        ).take(i as int).map_values(|m: GrepMatchView| match_document(m)).push(match_document(matches@[i as int]@)));
    }
    assert(match_views(matches@).take(n as int) =~= match_views(matches@));
    proof {
        lemma_array_view(items);
    }
    let all = JsonValue::Array(items);
    let mut f: Vec<(String, JsonValue)> = Vec::new();
    push_field(&mut f, "summary", summary_json(n, query));
    push_field(&mut f, "matches", all);
    proof {
        lemma_object_view(f);
    }
    assert(fields_view(f@) =~= match result_document(match_views(matches@), query@) {
        Json::Object(s) => s,
        _ => Seq::empty(),
    });
    JsonValue::Object(f)
}

} // verus!

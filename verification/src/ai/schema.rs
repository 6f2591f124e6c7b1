//! The JSON schema that asks a provider for structured candidates, and its
//! variant for providers that accept only the OpenAPI 3.0 subset.
use vstd::prelude::*;

use crate::text::{chars_of, copy_string, str_eq, string_of};

use super::prompts::CANDIDATE_COUNT;

verus! {

broadcast use vstd::seq_lib::group_filter_ensures;

/// A JSON value. Object members keep the order in which they were written.
#[derive(Debug)]
pub enum Json {
    Null,
    Bool(bool),
    Number(u64),
    Str(String),
    Array(Vec<Json>),
    Object(Vec<(String, Json)>),
}

/// A JSON value as plain values.
pub enum JsonView {
    Null,
    Bool(bool),
    Number(u64),
    Str(Seq<char>),
    Array(Seq<JsonView>),
    Object(Seq<(Seq<char>, JsonView)>),
}

pub open spec fn json_view(j: Json) -> JsonView
    decreases j,
{
    match j {
        Json::Null => JsonView::Null,
        Json::Bool(b) => JsonView::Bool(b),
        Json::Number(n) => JsonView::Number(n),
        Json::Str(s) => JsonView::Str(s@),
        Json::Array(a) => JsonView::Array(
            Seq::new(
                a@.len(),
                |i: int|
                    if 0 <= i < a@.len() {
                        json_view(a@[i])
                    } else {
                        JsonView::Null
                    },
            ),
        ),
        Json::Object(es) => JsonView::Object(
            Seq::new(
                es@.len(),
                |i: int|
                    if 0 <= i < es@.len() {
                        (es@[i].0@, json_view(es@[i].1))
                    } else {
                        (seq![], JsonView::Null)
                    },
            ),
        ),
    }
}

/// The keyword that the OpenAPI 3.0 subset does not know.
pub open spec fn is_additional_properties(key: Seq<char>) -> bool {
    key == "additionalProperties"@
}

/// Whether an object member is kept in the adapted schema.
pub open spec fn keep_member() -> spec_fn((Seq<char>, JsonView)) -> bool {
    |e: (Seq<char>, JsonView)| !is_additional_properties(e.0)
}

/// `v` with every `additionalProperties` member removed, at every depth;
/// everything else, and the order of what is kept, stays.
pub open spec fn strip_view(v: JsonView) -> JsonView
    decreases v,
{
    match v {
        JsonView::Array(a) => JsonView::Array(
            Seq::new(
                a.len(),
                |i: int|
                    if 0 <= i < a.len() {
                        strip_view(a[i])
                    } else {
                        JsonView::Null
                    },
            ),
        ),
        JsonView::Object(es) => JsonView::Object(strip_members(es).filter(keep_member())),
        _ => v,
    }
}

/// The members `es` with their values adapted, before any is removed.
pub open spec fn strip_members(es: Seq<(Seq<char>, JsonView)>) -> Seq<(Seq<char>, JsonView)>
    decreases es,
{
    Seq::new(
        es.len(),
        |i: int|
            if 0 <= i < es.len() {
                (es[i].0, strip_view(es[i].1))
            } else {
                (seq![], JsonView::Null)
            },
    )
}

/// No object in `v`, at any depth, has an `additionalProperties` member.
pub open spec fn free_of_additional_properties(v: JsonView) -> bool
    decreases v,
{
    match v {
        JsonView::Array(a) => forall|i: int|
            0 <= i < a.len() ==> free_of_additional_properties(#[trigger] a[i]),
        JsonView::Object(es) => forall|i: int|
            0 <= i < es.len() ==> {
                &&& !is_additional_properties(#[trigger] es[i].0)
                &&& free_of_additional_properties(es[i].1)
            },
        _ => true,
    }
}

/// The adapted schema has no `additionalProperties` left anywhere, whatever
/// schema it was made from.
pub proof fn adapted_schema_has_no_additional_properties(v: JsonView)
    ensures
        free_of_additional_properties(strip_view(v)),
    decreases v,
{
    match v {
        JsonView::Array(a) => {
            assert forall|i: int| 0 <= i < a.len() implies free_of_additional_properties(
                #[trigger] strip_view(v)->Array_0[i],
            ) by {
                adapted_schema_has_no_additional_properties(a[i]);
            }
        },
        JsonView::Object(es) => {
            let mapped = strip_members(es);
            let kept = mapped.filter(keep_member());
            assert forall|i: int| 0 <= i < kept.len() implies {
                &&& !is_additional_properties(#[trigger] kept[i].0)
                &&& free_of_additional_properties(kept[i].1)
            } by {
                assert(keep_member()(kept[i]));
                assert(kept.contains(kept[i]));
                mapped.lemma_filter_contains_rev(keep_member(), kept[i]);
                let j = choose|j: int| 0 <= j < mapped.len() && mapped[j] == kept[i];
                adapted_schema_has_no_additional_properties(es[j].1);
            }
        },
        _ => {},
    }
}

proof fn lemma_filter_keeps_all(s: Seq<(Seq<char>, JsonView)>)
    requires
        forall|i: int| 0 <= i < s.len() ==> keep_member()(#[trigger] s[i]),
    ensures
        s.filter(keep_member()) == s,
    decreases s.len(),
{
    reveal(Seq::filter);
    if s.len() > 0 {
        lemma_filter_keeps_all(s.drop_last());
        assert(s.drop_last().push(s.last()) =~= s);
    }
}

/// Adapting an adapted schema changes nothing more.
pub proof fn adapting_twice_changes_nothing(v: JsonView)
    ensures
        strip_view(strip_view(v)) == strip_view(v),
    decreases v,
{
    match v {
        JsonView::Array(a) => {
            let once = strip_view(v)->Array_0;
            assert forall|i: int| 0 <= i < once.len() implies strip_view(#[trigger] once[i]) == once[i] by {
                adapting_twice_changes_nothing(a[i]);
            }
            assert(strip_view(strip_view(v))->Array_0 =~= once);
        },
        JsonView::Object(es) => {
            let mapped = strip_members(es);
            let kept = mapped.filter(keep_member());
            assert forall|i: int| 0 <= i < kept.len() implies strip_view(#[trigger] kept[i].1)
                == kept[i].1 && keep_member()(kept[i]) by {
                assert(kept.contains(kept[i]));
                mapped.lemma_filter_contains_rev(keep_member(), kept[i]);
                let j = choose|j: int| 0 <= j < mapped.len() && mapped[j] == kept[i];
                adapting_twice_changes_nothing(es[j].1);
            }
            assert(strip_members(kept) =~= kept);
            lemma_filter_keeps_all(kept);
        },
        _ => {},
    }
}

/// `j` with every `additionalProperties` member removed.
fn strip(j: &Json) -> (r: Json)
    ensures
        json_view(r) == strip_view(json_view(*j)),
    decreases j,
{
    match j {
        Json::Null => Json::Null,
        Json::Bool(b) => Json::Bool(*b),
        Json::Number(n) => Json::Number(*n),
        Json::Str(s) => Json::Str(copy_string(s)),
        Json::Array(items) => {
            let mut out: Vec<Json> = Vec::new();
            let mut i: usize = 0;
            while i < items.len()
                invariant
                    0 <= i <= items@.len(),
                    *j == Json::Array(*items),
                    out@.len() == i,
                    forall|k: int|
                        0 <= k < i ==> json_view(#[trigger] out@[k]) == strip_view(
                            json_view(items@[k]),
                        ),
                decreases items@.len() - i,
            {
                assert(decreases_to!(*j => (*j)->Array_0));
                assert(decreases_to!((*j)->Array_0 => (*j)->Array_0@));
                assert(decreases_to!((*j)->Array_0@ => (*j)->Array_0@[i as int]));
                let x = strip(&items[i]);
                out.push(x);
                i += 1;
            }
            let r = Json::Array(out);
            assert(json_view(r)->Array_0 =~= strip_view(json_view(*j))->Array_0);
            r
        },
        Json::Object(entries) => {
            let ghost ev = json_view(*j)->Object_0;
            let mut out: Vec<(String, Json)> = Vec::new();
            let mut i: usize = 0;
            while i < entries.len()
                invariant
                    0 <= i <= entries@.len(),
                    *j == Json::Object(*entries),
                    ev == json_view(*j)->Object_0,
                    json_view(Json::Object(out))->Object_0 == strip_members(ev.take(i as int)).filter(
                        keep_member(),
                    ),
                decreases entries@.len() - i,
            {
                let ghost before = json_view(Json::Object(out))->Object_0;
                assert(strip_members(ev.take(i + 1)) =~= strip_members(ev.take(i as int)).push(
                    (ev[i as int].0, strip_view(ev[i as int].1)),
                ));
                proof {
                    strip_members(ev.take(i as int)).lemma_filter_push(
                        (ev[i as int].0, strip_view(ev[i as int].1)),
                        keep_member(),
                    );
                }
                let key = &entries[i].0;
                if !str_eq(key.as_str(), "additionalProperties") {
                    assert(decreases_to!(*j => entries@[i as int].1));
                    let value = strip(&entries[i].1);
                    out.push((copy_string(key), value));
                    assert(json_view(Json::Object(out))->Object_0 =~= before.push(
                        (ev[i as int].0, strip_view(ev[i as int].1)),
                    ));
                }
                i += 1;
            }
            assert(ev.take(entries@.len() as int) =~= ev);
            Json::Object(out)
        },
    }
}

/// The schema adapted to the OpenAPI 3.0 subset: `schema` without any
/// `additionalProperties` member.
pub fn openapi_compatible_schema(schema: Json) -> (r: Json)
    ensures
        json_view(r) == strip_view(json_view(schema)),
        free_of_additional_properties(json_view(r)),
{
    proof {
        adapted_schema_has_no_additional_properties(json_view(schema));
    }
    strip(&schema)
}

/// The schema of a structured answer: an object whose only member,
/// `candidates`, is an array of exactly `CANDIDATE_COUNT` strings.
pub open spec fn candidate_schema_view() -> JsonView {
    JsonView::Object(
        seq![
            ("type"@, JsonView::Str("object"@)),
            (
                "properties"@,
                JsonView::Object(
                    seq![
                        (
                            "candidates"@,
                            JsonView::Object(
                                seq![
                                    ("type"@, JsonView::Str("array"@)),
                                    ("description"@, JsonView::Str(CANDIDATES_DESCRIPTION@)),
                                    (
                                        "items"@,
                                        JsonView::Object(
                                            seq![
                                                ("type"@, JsonView::Str("string"@)),
                                                ("description"@, JsonView::Str(ITEM_DESCRIPTION@)),
                                            ],
                                        ),
                                    ),
                                    ("minItems"@, JsonView::Number(CANDIDATE_COUNT as u64)),
                                    ("maxItems"@, JsonView::Number(CANDIDATE_COUNT as u64)),
                                ],
                            ),
                        ),
                    ],
                ),
            ),
            ("required"@, JsonView::Array(seq![JsonView::Str("candidates"@)])),
            ("additionalProperties"@, JsonView::Bool(false)),
        ],
    )
}

pub const CANDIDATES_DESCRIPTION: &'static str =
    "Exactly three distinct complete commit messages ordered from strongest to weakest.";

pub const ITEM_DESCRIPTION: &'static str = "A complete commit message ready to pass to git commit.";

fn text(s: &str) -> (r: String)
    ensures
        r@ == s@,
{
    let v = chars_of(s);
    string_of(&v)
}

fn text_value(s: &str) -> (r: Json)
    ensures
        json_view(r) == JsonView::Str(s@),
{
    Json::Str(text(s))
}

fn member(key: &str, value: Json) -> (r: (String, Json))
    ensures
        r.0@ == key@,
        r.1 == value,
{
    (text(key), value)
}

/// The schema of a structured answer.
pub fn candidate_schema() -> (r: Json)
    ensures
        json_view(r) == candidate_schema_view(),
{
    let mut item: Vec<(String, Json)> = Vec::new();
    item.push(member("type", text_value("string")));
    item.push(member("description", text_value(ITEM_DESCRIPTION)));
    let item = Json::Object(item);
    let ghost item_view = json_view(item);
    assert(item_view->Object_0 =~= seq![
        ("type"@, JsonView::Str("string"@)),
        ("description"@, JsonView::Str(ITEM_DESCRIPTION@)),
    ]);

    let mut list: Vec<(String, Json)> = Vec::new();
    list.push(member("type", text_value("array")));
    list.push(member("description", text_value(CANDIDATES_DESCRIPTION)));
    list.push(member("items", item));
    list.push(member("minItems", Json::Number(CANDIDATE_COUNT as u64)));
    list.push(member("maxItems", Json::Number(CANDIDATE_COUNT as u64)));
    assert(json_view(list@[3].1) == JsonView::Number(CANDIDATE_COUNT as u64));
    assert(json_view(list@[4].1) == JsonView::Number(CANDIDATE_COUNT as u64));
    let list = Json::Object(list);
    let ghost list_view = json_view(list);
    assert(list_view->Object_0 =~= seq![
        ("type"@, JsonView::Str("array"@)),
        ("description"@, JsonView::Str(CANDIDATES_DESCRIPTION@)),
        ("items"@, item_view),
        ("minItems"@, JsonView::Number(CANDIDATE_COUNT as u64)),
        ("maxItems"@, JsonView::Number(CANDIDATE_COUNT as u64)),
    ]);

    let mut properties: Vec<(String, Json)> = Vec::new();
    properties.push(member("candidates", list));
    let properties = Json::Object(properties);
    let ghost properties_view = json_view(properties);
    assert(properties_view->Object_0 =~= seq![("candidates"@, list_view)]);

    let mut required: Vec<Json> = Vec::new();
    required.push(text_value("candidates"));
    let required = Json::Array(required);
    let ghost required_view = json_view(required);
    assert(required_view->Array_0 =~= seq![JsonView::Str("candidates"@)]);

    let mut schema: Vec<(String, Json)> = Vec::new();
    schema.push(member("type", text_value("object")));
    schema.push(member("properties", properties));
    schema.push(member("required", required));
    schema.push(member("additionalProperties", Json::Bool(false)));
    assert(json_view(schema@[3].1) == JsonView::Bool(false));
    let schema = Json::Object(schema);
    assert(json_view(schema)->Object_0 =~= seq![
        ("type"@, JsonView::Str("object"@)),
        ("properties"@, properties_view),
        ("required"@, required_view),
        ("additionalProperties"@, JsonView::Bool(false)),
    ]);
    schema
}

} // verus!

//! What the MCP server offers and decides: its tool definitions and what
//! a tool call's arguments ask of the database.
use vstd::prelude::*;
use crate::adb::Adb;
use crate::executor::{json_to_value, value_of_json};
use crate::json::{array_of, items_view, json_as_bool, json_as_i64, json_as_u64, json_get, members_view, object_of, push_item, push_member, string_of, Json, JsonView};
use crate::memory::{MemoryRecord, MemoryType};
use crate::order::record_views;
use crate::predicate::{no_modifiers, Modifiers, Predicate, PredicateView, Value, ValueView, Window};
use crate::steps::text_member;
use crate::text::owned;
use crate::time::{Timestamp, Ttl};

verus! {

broadcast use vstd::string::group_string_axioms;

// ---------------------------------------------------------------------------
// Tool definitions
// ---------------------------------------------------------------------------

/// A tool the server offers: its name, description and the JSON Schema
/// of its input.
#[derive(Debug)]
pub struct ToolDef {
    pub name: String,
    pub description: String,
    pub input_schema: Json,
}

/// The value of a tool definition.
pub open spec fn tool_view(t: ToolDef) -> (Seq<char>, Seq<char>, JsonView) {
    (t.name@, t.description@, t.input_schema@)
}

/// The schema of one input property: its JSON type (any type when none)
/// and description, members in key order.
pub open spec fn property_json(ty: Option<Seq<char>>, desc: Seq<char>) -> JsonView {
    match ty {
        Some(t) => JsonView::Object(seq![("description"@, JsonView::String(desc)), ("type"@, JsonView::String(t))]),
        None => JsonView::Object(seq![("description"@, JsonView::String(desc))]),
    }
}

/// The schema of an object input with the given properties and required
/// properties, members in key order.
pub open spec fn schema_json(props: Seq<(Seq<char>, JsonView)>, required: Seq<Seq<char>>) -> JsonView {
    if required.len() > 0 {
        JsonView::Object(
            seq![
                ("properties"@, JsonView::Object(props)),
                ("required"@, JsonView::Array(required.map_values(|s: Seq<char>| JsonView::String(s)))),
                ("type"@, JsonView::String("object"@)),
            ],
        )
    } else {
        JsonView::Object(seq![("properties"@, JsonView::Object(props)), ("type"@, JsonView::String("object"@))])
    }
}

/// The tools the server offers, in order.
pub open spec fn tool_defs() -> Seq<(Seq<char>, Seq<char>, JsonView)> {
    seq![
        (
            "aql_query"@,
            "Execute an AQL query against the Agent Database"@,
            schema_json(
                seq![("query"@, property_json(Some("string"@), "The AQL query to execute"@))],
                seq!["query"@],
            ),
        ),
        (
            "store_working"@,
            "Store data in working memory"@,
            schema_json(
                seq![
                    ("data"@, property_json(Some("object"@), "The data to store"@)),
                    ("key"@, property_json(Some("string"@), "The key for the record"@)),
                ],
                seq!["key"@, "data"@],
            ),
        ),
        (
            "recall_working"@,
            "Recall data from working memory"@,
            schema_json(
                seq![
                    ("field"@, property_json(Some("string"@), "Optional field to filter on"@)),
                    ("key"@, property_json(Some("string"@), "Optional key filter"@)),
                    ("value"@, property_json(None, "Optional value to match"@)),
                ],
                Seq::empty(),
            ),
        ),
        (
            "recall_episodic"@,
            "Recall events from episodic memory with time window"@,
            schema_json(
                seq![
                    ("event_type"@, property_json(Some("string"@), "Optional event type filter"@)),
                    ("limit"@, property_json(Some("integer"@), "Maximum number of events to return"@)),
                    ("window_minutes"@, property_json(Some("integer"@), "Time window in minutes (default 60)"@)),
                ],
                Seq::empty(),
            ),
        ),
        (
            "get_context"@,
            "Get combined context from working memory and recent episodic history"@,
            schema_json(
                seq![
                    ("include_episodic"@, property_json(Some("boolean"@), "Include episodic history (default true)"@)),
                    ("include_working"@, property_json(Some("boolean"@), "Include working memory (default true)"@)),
                    (
                        "window_minutes"@,
                        property_json(Some("integer"@), "Episodic time window in minutes (default 30)"@),
                    ),
                ],
                Seq::empty(),
            ),
        ),
    ]
}

/// Whether a property named `n` is among `props`.
pub open spec fn declares(props: Seq<(Seq<char>, JsonView)>, n: Seq<char>) -> bool {
    exists|i: int| 0 <= i < props.len() && props[i].0 == n
}

/// Whether a required-inputs entry names one of the properties `props`.
pub open spec fn required_ok(props: Seq<(Seq<char>, JsonView)>, v: JsonView) -> bool {
    match v {
        JsonView::String(n) => declares(props, n),
        _ => false,
    }
}

/// Whether `j` is an object input schema: of type `object`, with an object
/// of properties, and required inputs, when listed, that are among them.
pub open spec fn input_schema_ok(j: JsonView) -> bool {
    &&& json_get(j, "type"@) == Some(JsonView::String("object"@))
    &&& match json_get(j, "properties"@) {
        Some(JsonView::Object(props)) => match json_get(j, "required"@) {
            Some(JsonView::Array(req)) => forall|k: int| 0 <= k < req.len() ==> required_ok(props, #[trigger] req[k]),
            None => true,
            _ => false,
        },
        _ => false,
    }
}

/// A schema made by `schema_json` is an object input schema when every
/// required input is among its properties.
pub proof fn lemma_schema_json_ok(props: Seq<(Seq<char>, JsonView)>, required: Seq<Seq<char>>)
    requires
        forall|k: int| 0 <= k < required.len() ==> declares(props, #[trigger] required[k]),
    ensures
        input_schema_ok(schema_json(props, required)),
{
    reveal_strlit("properties");
    reveal_strlit("required");
    reveal_strlit("type");
    reveal_strlit("object");
    reveal_with_fuel(crate::json::member_index, 4);
    let j = schema_json(props, required);
    if required.len() > 0 {
        let m = seq![
            ("properties"@, JsonView::Object(props)),
            ("required"@, JsonView::Array(required.map_values(|s: Seq<char>| JsonView::String(s)))),
            ("type"@, JsonView::String("object"@)),
        ];
        assert(m.drop_first().drop_first() =~= seq![("type"@, JsonView::String("object"@))]);
        assert(m.drop_first() =~= seq![m[1], m[2]]);
        assert("properties"@.len() == 10 && "required"@.len() == 8 && "type"@.len() == 4);
        assert("properties"@ != "type"@);
        assert("required"@ != "type"@);
        assert("properties"@ != "required"@);
        assert(json_get(j, "type"@) == Some(JsonView::String("object"@)));
        assert(json_get(j, "properties"@) == Some(JsonView::Object(props)));
        assert(json_get(j, "required"@) == Some(JsonView::Array(required.map_values(|s: Seq<char>| JsonView::String(s)))));
        let req = required.map_values(|s: Seq<char>| JsonView::String(s));
        assert forall|k: int| 0 <= k < req.len() implies required_ok(props, #[trigger] req[k]) by {
            assert(declares(props, required[k]));
        }
    } else {
        let m = seq![("properties"@, JsonView::Object(props)), ("type"@, JsonView::String("object"@))];
        assert(m.drop_first() =~= seq![("type"@, JsonView::String("object"@))]);
        assert(m.drop_first().drop_first() =~= Seq::<(Seq<char>, JsonView)>::empty());
        assert("properties"@.len() == 10 && "required"@.len() == 8 && "type"@.len() == 4);
        assert("properties"@ != "type"@);
        assert("required"@ != "type"@);
        assert("properties"@ != "required"@);
        assert(json_get(j, "type"@) == Some(JsonView::String("object"@)));
        assert(json_get(j, "properties"@) == Some(JsonView::Object(props)));
        assert(json_get(j, "required"@) is None);
    }
}

/// The tools offered have pairwise distinct names, and each takes an
/// object input whose required inputs are among its declared properties.
pub proof fn lemma_tools_well_formed()
    ensures
        forall|i: int, j: int| 0 <= i < j < tool_defs().len() ==> tool_defs()[i].0 != tool_defs()[j].0,
        forall|i: int| 0 <= i < tool_defs().len() ==> input_schema_ok(#[trigger] tool_defs()[i].2),
{
    reveal_strlit("aql_query");
    reveal_strlit("store_working");
    reveal_strlit("recall_working");
    reveal_strlit("recall_episodic");
    reveal_strlit("get_context");
    let t = tool_defs();
    let p0 = seq![("query"@, property_json(Some("string"@), "The AQL query to execute"@))];
    assert(p0[0].0 == "query"@);
    assert(declares(p0, "query"@));
    lemma_schema_json_ok(p0, seq!["query"@]);
    let p1 = seq![
        ("data"@, property_json(Some("object"@), "The data to store"@)),
        ("key"@, property_json(Some("string"@), "The key for the record"@)),
    ];
    assert(p1[1].0 == "key"@);
    assert(p1[0].0 == "data"@);
    assert(declares(p1, "key"@));
    assert(declares(p1, "data"@));
    lemma_schema_json_ok(p1, seq!["key"@, "data"@]);
    lemma_schema_json_ok(
        seq![
            ("field"@, property_json(Some("string"@), "Optional field to filter on"@)),
            ("key"@, property_json(Some("string"@), "Optional key filter"@)),
            ("value"@, property_json(None, "Optional value to match"@)),
        ],
        Seq::empty(),
    );
    lemma_schema_json_ok(
        seq![
            ("event_type"@, property_json(Some("string"@), "Optional event type filter"@)),
            ("limit"@, property_json(Some("integer"@), "Maximum number of events to return"@)),
            ("window_minutes"@, property_json(Some("integer"@), "Time window in minutes (default 60)"@)),
        ],
        Seq::empty(),
    );
    lemma_schema_json_ok(
        seq![
            ("include_episodic"@, property_json(Some("boolean"@), "Include episodic history (default true)"@)),
            ("include_working"@, property_json(Some("boolean"@), "Include working memory (default true)"@)),
            ("window_minutes"@, property_json(Some("integer"@), "Episodic time window in minutes (default 30)"@)),
        ],
        Seq::empty(),
    );
    assert(t.len() == 5);
    assert(t[0].0.len() != t[1].0.len() && t[0].0.len() != t[2].0.len() && t[0].0.len() != t[3].0.len()
        && t[0].0.len() != t[4].0.len() && t[1].0.len() != t[2].0.len() && t[1].0.len() != t[3].0.len()
        && t[1].0.len() != t[4].0.len() && t[2].0.len() != t[3].0.len() && t[2].0.len() != t[4].0.len()
        && t[3].0.len() != t[4].0.len());
}

/// `property_json`.
fn property(ty: Option<&str>, desc: &str) -> (r: Json)
    ensures
        r@ == property_json(
            match ty {
                Some(t) => Some(t@),
                None => None,
            },
            desc@,
        ),
{
    let mut m: Vec<(String, Json)> = Vec::new();
    push_member(&mut m, "description", string_of(desc));
    match ty {
        Some(t) => push_member(&mut m, "type", string_of(t)),
        None => {},
    }
    let r = object_of(m);
    proof {
        match ty {
            Some(t) => assert(r@->Object_0 =~= seq![("description"@, JsonView::String(desc@)), ("type"@, JsonView::String(t@))]),
            None => assert(r@->Object_0 =~= seq![("description"@, JsonView::String(desc@))]),
        }
    }
    r
}

/// `schema_json`.
fn schema(props: Vec<(String, Json)>, required: Vec<&str>) -> (r: Json)
    ensures
        r@ == schema_json(members_view(props@), required@.map_values(|s: &str| s@)),
{
    let ghost pv = members_view(props@);
    let ghost rv = required@.map_values(|s: &str| s@);
    let mut items: Vec<Json> = Vec::new();
    let mut i: usize = 0;
    while i < required.len()
        invariant
            i <= required@.len(),
            rv == required@.map_values(|s: &str| s@),
            items_view(items@) == rv.take(i as int).map_values(|s: Seq<char>| JsonView::String(s)),
        decreases required@.len() - i,
    {
        push_item(&mut items, string_of(required[i]));
        assert(rv.take(i + 1).map_values(|s: Seq<char>| JsonView::String(s)) =~= rv.take(i as int).map_values(
            |s: Seq<char>| JsonView::String(s),
        ).push(JsonView::String(rv[i as int])));
        i = i + 1;
    }
    assert(rv.take(rv.len() as int) =~= rv);
    let mut m: Vec<(String, Json)> = Vec::new();
    push_member(&mut m, "properties", object_of(props));
    if required.len() > 0 {
        push_member(&mut m, "required", array_of(items));
    }
    push_member(&mut m, "type", string_of("object"));
    let r = object_of(m);
    proof {
        if rv.len() > 0 {
            assert(r@->Object_0 =~= schema_json(pv, rv)->Object_0);
        } else {
            assert(r@->Object_0 =~= schema_json(pv, rv)->Object_0);
        }
    }
    r
}

/// A property named `name` with its schema.
fn prop(name: &str, ty: Option<&str>, desc: &str) -> (r: (String, Json))
    ensures
        r.0@ == name@,
        r.1@ == property_json(
            match ty {
                Some(t) => Some(t@),
                None => None,
            },
            desc@,
        ),
{
    (owned(name), property(ty, desc))
}

/// A tool definition.
fn tool(name: &str, description: &str, input_schema: Json) -> (r: ToolDef)
    ensures
        tool_view(r) == (name@, description@, input_schema@),
{
    ToolDef { name: owned(name), description: owned(description), input_schema }
}

/// The tools the server offers (see `tool_defs`).
pub fn get_tools() -> (r: Vec<ToolDef>)
    ensures
        r@.map_values(|t: ToolDef| tool_view(t)) == tool_defs(),
{
    let mut out: Vec<ToolDef> = Vec::new();

    let mut p: Vec<(String, Json)> = Vec::new();
    p.push(prop("query", Some("string"), "The AQL query to execute"));
    let ghost p0 = members_view(p@);
    let q0 = vec!["query"];
    assert(q0@.map_values(|s: &str| s@) =~= seq!["query"@]);
    let s0 = schema(p, q0);
    out.push(tool("aql_query", "Execute an AQL query against the Agent Database", s0));

    let mut p: Vec<(String, Json)> = Vec::new();
    p.push(prop("data", Some("object"), "The data to store"));
    p.push(prop("key", Some("string"), "The key for the record"));
    let ghost p1 = members_view(p@);
    let q1 = vec!["key", "data"];
    assert(q1@.map_values(|s: &str| s@) =~= seq!["key"@, "data"@]);
    let s1 = schema(p, q1);
    out.push(tool("store_working", "Store data in working memory", s1));

    let mut p: Vec<(String, Json)> = Vec::new();
    p.push(prop("field", Some("string"), "Optional field to filter on"));
    p.push(prop("key", Some("string"), "Optional key filter"));
    p.push(prop("value", None, "Optional value to match"));
    let ghost p2 = members_view(p@);
    let q2: Vec<&str> = Vec::new();
    assert(q2@.map_values(|s: &str| s@) =~= Seq::<Seq<char>>::empty());
    let s2 = schema(p, q2);
    out.push(tool("recall_working", "Recall data from working memory", s2));

    let mut p: Vec<(String, Json)> = Vec::new();
    p.push(prop("event_type", Some("string"), "Optional event type filter"));
    p.push(prop("limit", Some("integer"), "Maximum number of events to return"));
    p.push(prop("window_minutes", Some("integer"), "Time window in minutes (default 60)"));
    let ghost p3 = members_view(p@);
    let q3: Vec<&str> = Vec::new();
    assert(q3@.map_values(|s: &str| s@) =~= Seq::<Seq<char>>::empty());
    let s3 = schema(p, q3);
    out.push(tool("recall_episodic", "Recall events from episodic memory with time window", s3));

    let mut p: Vec<(String, Json)> = Vec::new();
    p.push(prop("include_episodic", Some("boolean"), "Include episodic history (default true)"));
    p.push(prop("include_working", Some("boolean"), "Include working memory (default true)"));
    p.push(prop("window_minutes", Some("integer"), "Episodic time window in minutes (default 30)"));
    let ghost p4 = members_view(p@);
    let q4: Vec<&str> = Vec::new();
    assert(q4@.map_values(|s: &str| s@) =~= Seq::<Seq<char>>::empty());
    let s4 = schema(p, q4);
    out.push(
        tool("get_context", "Get combined context from working memory and recent episodic history", s4),
    );

    proof {
        assert(p0 =~= seq![("query"@, property_json(Some("string"@), "The AQL query to execute"@))]);
        assert(p1 =~= seq![
            ("data"@, property_json(Some("object"@), "The data to store"@)),
            ("key"@, property_json(Some("string"@), "The key for the record"@)),
        ]);
        assert(p2 =~= seq![
            ("field"@, property_json(Some("string"@), "Optional field to filter on"@)),
            ("key"@, property_json(Some("string"@), "Optional key filter"@)),
            ("value"@, property_json(None, "Optional value to match"@)),
        ]);
        assert(p3 =~= seq![
            ("event_type"@, property_json(Some("string"@), "Optional event type filter"@)),
            ("limit"@, property_json(Some("integer"@), "Maximum number of events to return"@)),
            ("window_minutes"@, property_json(Some("integer"@), "Time window in minutes (default 60)"@)),
        ]);
        assert(p4 =~= seq![
            ("include_episodic"@, property_json(Some("boolean"@), "Include episodic history (default true)"@)),
            ("include_working"@, property_json(Some("boolean"@), "Include working memory (default true)"@)),
            ("window_minutes"@, property_json(Some("integer"@), "Episodic time window in minutes (default 30)"@)),
        ]);
        assert(s0@ == tool_defs()[0].2);
        assert(s1@ == tool_defs()[1].2);
        assert(s2@ == tool_defs()[2].2);
        assert(s3@ == tool_defs()[3].2);
        assert(s4@ == tool_defs()[4].2);
        assert(out@.map_values(|t: ToolDef| tool_view(t)) =~= tool_defs());
    }
    out
}

// ---------------------------------------------------------------------------
// What tool calls ask for
// ---------------------------------------------------------------------------

/// The boolean member `k` of optional arguments, `default` without one.
pub open spec fn flag_arg(args: Option<JsonView>, k: Seq<char>, default: bool) -> bool {
    match args {
        Some(a) => match json_get(a, k) {
            Some(v) => match json_as_bool(v) {
                Some(b) => b,
                None => default,
            },
            None => default,
        },
        None => default,
    }
}

/// The integer member `k` of optional arguments, truncated to 32 bits,
/// `default` without one.
pub open spec fn minutes_arg(args: Option<JsonView>, k: Seq<char>, default: i32) -> i32 {
    match args {
        Some(a) => match json_get(a, k) {
            Some(v) => match json_as_i64(v) {
                Some(i) => i as i32,
                None => default,
            },
            None => default,
        },
        None => default,
    }
}

/// The view of optional arguments.
pub open spec fn args_view(args: Option<&Json>) -> Option<JsonView> {
    match args {
        Some(a) => Some(a@),
        None => None,
    }
}

fn flag_of(args: Option<&Json>, k: &str, default: bool) -> (r: bool)
    ensures
        r == flag_arg(args_view(args), k@, default),
{
    match args {
        Some(a) => match a.get(k) {
            Some(v) => match v.as_bool() {
                Some(b) => b,
                None => default,
            },
            None => default,
        },
        None => default,
    }
}

#[verifier::truncate]
fn minutes_of(args: Option<&Json>, k: &str, default: i32) -> (r: i32)
    ensures
        r == minutes_arg(args_view(args), k@, default),
{
    match args {
        Some(a) => match a.get(k) {
            Some(v) => match v.as_i64() {
                Some(i) => i as i32,
                None => default,
            },
            None => default,
        },
        None => default,
    }
}

/// The `window_minutes` of a call's arguments, `default` without one (see
/// `minutes_arg`); a negative window is refused before a call that needs
/// one.
pub fn window_minutes(args: Option<&Json>, default: i32) -> (r: i32)
    ensures
        r == minutes_arg(args_view(args), "window_minutes"@, default),
{
    minutes_of(args, "window_minutes", default)
}

/// Whether `p` is the predicate a `recall_working` call asks for: the
/// record under its `key` text; else the records whose `field` text
/// member equals its `value` (as `value_of_json` reads it); else every
/// record.
pub open spec fn working_recall_predicate<T: Fn(Json) -> String>(text: T, args: Option<JsonView>, p: Predicate) -> bool {
    match args {
        Some(a) => match text_member(a, "key"@) {
            Some(k) => p@ == PredicateView::Key { field: "id"@, value: ValueView::String(k) },
            None => match (text_member(a, "field"@), json_get(a, "value"@)) {
                (Some(f), Some(v)) => {
                    &&& p matches Predicate::Where { conditions }
                    &&& conditions@.len() == 1
                    &&& conditions@[0].field@ == f
                    &&& conditions@[0].operator == crate::predicate::Operator::Eq
                    &&& value_of_json(text, v, conditions@[0].value@)
                },
                _ => p is All,
            },
        },
        None => p is All,
    }
}

/// The predicate a `recall_working` call asks for (see
/// `working_recall_predicate`).
pub fn recall_working_predicate<T: Fn(Json) -> String>(args: Option<&Json>, text: &T) -> (r: Predicate)
    requires
        forall|x: Json| call_requires(*text, (x,)),
    ensures
        working_recall_predicate(*text, args_view(args), r),
{
    proof {
        reveal_strlit("id");
    }
    match args {
        Some(a) => {
            match a.get("key") {
                Some(k) => match k.as_str() {
                    Some(key) => return Predicate::key("id", Value::String(owned(key))),
                    None => {},
                },
                None => {},
            }
            let field = match a.get("field") {
                Some(f) => f.as_str(),
                None => None,
            };
            match (field, a.get("value")) {
                (Some(f), Some(v)) => Predicate::where_eq(f, json_to_value(v, text)),
                _ => Predicate::All,
            }
        },
        None => Predicate::All,
    }
}

/// What a `recall_episodic` call asks for: events within its
/// `window_minutes` (sixty by default) of `event_type` when given, at most
/// its `limit`.
pub struct EpisodicRequest {
    pub predicate: Predicate,
    pub modifiers: Modifiers,
}

/// Whether `r` is what a `recall_episodic` call with `args` asks for.
pub open spec fn episodic_request_of(args: Option<JsonView>, r: EpisodicRequest) -> bool {
    let w = minutes_arg(args, "window_minutes"@, 60);
    &&& match args {
        Some(a) => match text_member(a, "event_type"@) {
            Some(e) => {
                &&& r.predicate matches Predicate::Where { conditions }
                &&& conditions@.len() == 1
                &&& conditions@[0].field@ == "event_type"@
                &&& conditions@[0].operator == crate::predicate::Operator::Eq
                &&& conditions@[0].value@ == ValueView::String(e)
            },
            None => r.predicate is All,
        },
        None => r.predicate is All,
    }
    &&& r.modifiers.window matches Some(Window::LastDuration { duration }) && duration.total() == w as u64 * 60
        * 1_000_000_000
    &&& r.modifiers.limit == match args {
        Some(a) => match json_get(a, "limit"@) {
            Some(v) => match json_as_u64(v) {
                Some(l) => Some(l as usize),
                None => None,
            },
            None => None,
        },
        None => None,
    }
    &&& no_modifiers(Modifiers { window: None, limit: None, ..r.modifiers })
}

/// The window of the last `minutes` minutes.
fn minutes_window(minutes: i32) -> (r: Window)
    requires
        minutes >= 0,
    ensures
        r matches Window::LastDuration { duration } && duration.total() == minutes as u64 * 60 * 1_000_000_000,
{
    let secs: u64 = minutes as u64 * 60;
    Window::last_duration(Ttl::from_secs(secs))
}

/// What a `recall_episodic` call asks for (see `episodic_request_of`).  A
/// negative window is refused by the caller.
#[verifier::truncate]
pub fn episodic_request(args: Option<&Json>) -> (r: EpisodicRequest)
    requires
        minutes_arg(args_view(args), "window_minutes"@, 60) >= 0,
    ensures
        episodic_request_of(args_view(args), r),
{
    proof {
        reveal_strlit("event_type");
    }
    let minutes = minutes_of(args, "window_minutes", 60);
    let limit = match args {
        Some(a) => match a.get("limit") {
            Some(v) => match v.as_u64() {
                Some(l) => Some(l as usize),
                None => None,
            },
            None => None,
        },
        None => None,
    };
    let mut modifiers = Modifiers::default();
    modifiers.window = Some(minutes_window(minutes));
    modifiers.limit = limit;
    let predicate = match args {
        Some(a) => match a.get("event_type") {
            Some(e) => match e.as_str() {
                Some(t) => Predicate::where_eq("event_type", Value::String(owned(t))),
                None => Predicate::All,
            },
            None => Predicate::All,
        },
        None => Predicate::All,
    };
    EpisodicRequest { predicate, modifiers }
}

/// What a `get_context` call gives: the live working records when asked
/// (by default), and the events of the window (thirty minutes by
/// default), at most fifty, when asked (by default).
pub struct ContextRecords {
    pub working: Option<Vec<MemoryRecord>>,
    pub episodic: Option<Vec<MemoryRecord>>,
}

/// Whether `c` is what a `get_context` call with `args` gives from `a` at
/// instant `now`.
pub open spec fn context_of(a: Adb, args: Option<JsonView>, now: Timestamp, c: ContextRecords) -> bool {
    let w = minutes_arg(args, "window_minutes"@, 30);
    &&& if flag_arg(args, "include_working"@, true) {
        c.working matches Some(rs) && record_views(rs@) == crate::working::working_scan(
            a.working_backend()@.records,
            None,
            now,
        )
    } else {
        c.working is None
    }
    &&& if flag_arg(args, "include_episodic"@, true) {
        exists|m: Modifiers|
            {
                &&& m.window matches Some(Window::LastDuration { duration }) && duration.total() == w as u64 * 60
                    * 1_000_000_000
                &&& m.limit == Some(50usize)
                &&& no_modifiers(Modifiers { window: None, limit: None, ..m })
                &&& c.episodic matches Some(rs) && record_views(rs@) == #[trigger] crate::adb::adb_recall(
                    a,
                    MemoryType::Episodic,
                    Predicate::All,
                    m,
                    now,
                )
            }
    } else {
        c.episodic is None
    }
}

/// What a `get_context` call asks of `adb` at instant `now` (see
/// `context_of`).  A negative window is refused by the caller.
pub fn get_context_at(adb: &Adb, args: Option<&Json>, now: Timestamp) -> (r: ContextRecords)
    requires
        minutes_arg(args_view(args), "window_minutes"@, 30) >= 0,
    ensures
        context_of(*adb, args_view(args), now, r),
{
    let include_working = flag_of(args, "include_working", true);
    let include_episodic = flag_of(args, "include_episodic", true);
    let minutes = minutes_of(args, "window_minutes", 30);
    let working = if include_working {
        Some(adb.scan_at(None, now))
    } else {
        None
    };
    let episodic = if include_episodic {
        let mut modifiers = Modifiers::default();
        modifiers.window = Some(minutes_window(minutes));
        modifiers.limit = Some(50);
        let p = Predicate::All;
        let rs = adb.recall_with_modifiers_at(MemoryType::Episodic, &p, &modifiers, now);
        assert(no_modifiers(Modifiers { window: None, limit: None, ..modifiers }));
        Some(rs)
    } else {
        None
    };
    ContextRecords { working, episodic }
}

/// What a `get_context` call asks of `adb` now (see `get_context_at`).
pub fn get_context(adb: &Adb, args: Option<&Json>) -> (r: ContextRecords)
    requires
        minutes_arg(args_view(args), "window_minutes"@, 30) >= 0,
    ensures
        exists|now: Timestamp| now.wf() && context_of(*adb, args_view(args), now, r),
{
    let now = crate::time::clock_now();
    get_context_at(adb, args, now)
}

} // verus!

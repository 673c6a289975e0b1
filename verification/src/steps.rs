//! What the executor reads from a step's data (the record a STORE
//! stores, the link a LINK makes) and the links it shows with records.
use vstd::prelude::*;
use crate::executor::{json_to_value, value_of_json, ExecutorError};
use crate::float::{f32_bits_of_f64, f32_of_f64, f64_bits_of_f32, f64_of_f32, F32_ONE};
use crate::json::{
    array_of, items_view, json_as_f64, json_as_str, json_as_u64, json_from_f64, json_get, json_of_f64,
    members_view, object_of, object_set, push_item, push_member, set_member, string_of, Json, JsonView,
};
use crate::link::{Link, LinkView};
use crate::links::link_views;
use crate::memory::{opt_view, MemoryRecord, MemoryType, RecordView};
use crate::plan::{memory_type_debug, memory_type_debug_name};
use crate::predicate::{Condition, ConditionView, Operator, Predicate, Value, ValueView};
use crate::scope::Scope;
use crate::text::{owned, str_eq};
use crate::time::Ttl;

verus! {

broadcast use vstd::string::group_string_axioms;

/// The text of member `k` of a document, when it has one.
pub open spec fn text_member(d: JsonView, k: Seq<char>) -> Option<Seq<char>> {
    match json_get(d, k) {
        Some(v) => json_as_str(v),
        None => None,
    }
}

/// Whether `r` is a `MissingData` error naming `what`.
pub open spec fn missing<A>(r: Result<A, ExecutorError>, what: Seq<char>) -> bool {
    r matches Err(ExecutorError::MissingData(m)) && m@ == what
}

/// The member of a document named `k` as text.
fn text_of<'a>(d: &'a Json, k: &str) -> (r: Option<&'a str>)
    ensures
        match text_member(d@, k@) {
            Some(s) => r matches Some(x) && x@ == s,
            None => r is None,
        },
{
    match d.get(k) {
        Some(v) => v.as_str(),
        None => None,
    }
}

// ---------------------------------------------------------------------------
// STORE
// ---------------------------------------------------------------------------

/// The scope with a `Debug` name.
pub open spec fn scope_of_debug(s: Seq<char>) -> Option<Scope> {
    if s == "Private"@ {
        Some(Scope::Private)
    } else if s == "Shared"@ {
        Some(Scope::Shared)
    } else if s == "Cluster"@ {
        Some(Scope::Cluster)
    } else {
        None
    }
}

/// What a STORE step's data asks for.
#[derive(Debug)]
pub struct StoreFields {
    pub key: String,
    pub payload: Json,
    pub scope: Scope,
    pub namespace: Option<String>,
    pub ttl: Option<Ttl>,
}

/// Whether `f` is what the data `d` of a STORE step asks for: its `key`
/// text, its `payload` (an empty object without one), the scope its
/// `scope` text names (private otherwise), its `namespace` text, and its
/// `ttl_ms` milliseconds.
pub open spec fn store_fields_of(d: JsonView, f: StoreFields) -> bool {
    &&& text_member(d, "key"@) == Some(f.key@)
    &&& f.payload@ == match json_get(d, "payload"@) {
        Some(v) => v,
        None => JsonView::Object(Seq::empty()),
    }
    &&& f.scope == match text_member(d, "scope"@) {
        Some(s) => match scope_of_debug(s) {
            Some(x) => x,
            None => Scope::Private,
        },
        None => Scope::Private,
    }
    &&& opt_view(f.namespace) == text_member(d, "namespace"@)
    &&& match json_get(d, "ttl_ms"@) {
        Some(v) => match json_as_u64(v) {
            Some(ms) => f.ttl matches Some(t) && t.total() == ms * 1_000_000,
            None => f.ttl is None,
        },
        None => f.ttl is None,
    }
}

/// Reads what a STORE step's data asks for; it needs a `key` text.
pub fn store_fields(data: &Json) -> (r: Result<StoreFields, ExecutorError>)
    ensures
        match text_member(data@, "key"@) {
            Some(_) => r matches Ok(f) && store_fields_of(data@, f),
            None => missing(r, "key"@),
        },
{
    proof {
        reveal_strlit("key");
        reveal_strlit("payload");
        reveal_strlit("scope");
        reveal_strlit("namespace");
        reveal_strlit("ttl_ms");
        reveal_strlit("Private");
        reveal_strlit("Shared");
        reveal_strlit("Cluster");
    }
    let key = match text_of(data, "key") {
        Some(k) => owned(k),
        None => return Err(ExecutorError::MissingData(owned("key"))),
    };
    let payload = match data.get("payload") {
        Some(p) => p.copy(),
        None => {
            let none: Vec<(String, Json)> = Vec::new();
            assert(members_view(none@) =~= Seq::empty());
            object_of(none)
        },
    };
    let scope = match text_of(data, "scope") {
        Some(s) => if str_eq(s, "Private") {
            Scope::Private
        } else if str_eq(s, "Shared") {
            Scope::Shared
        } else if str_eq(s, "Cluster") {
            Scope::Cluster
        } else {
            Scope::Private
        },
        None => Scope::Private,
    };
    let namespace = match text_of(data, "namespace") {
        Some(n) => Some(owned(n)),
        None => None,
    };
    let ttl = match data.get("ttl_ms") {
        Some(v) => match v.as_u64() {
            Some(ms) => Some(Ttl::from_millis(ms)),
            None => None,
        },
        None => None,
    };
    Ok(StoreFields { key, payload, scope, namespace, ttl })
}

// ---------------------------------------------------------------------------
// Conditions of a LINK target
// ---------------------------------------------------------------------------

/// The operator with a `Debug` name.
pub open spec fn operator_of_debug(s: Seq<char>) -> Option<Operator> {
    if s == "Eq"@ {
        Some(Operator::Eq)
    } else if s == "Ne"@ {
        Some(Operator::Ne)
    } else if s == "Gt"@ {
        Some(Operator::Gt)
    } else if s == "Gte"@ {
        Some(Operator::Gte)
    } else if s == "Lt"@ {
        Some(Operator::Lt)
    } else if s == "Lte"@ {
        Some(Operator::Lte)
    } else if s == "Contains"@ {
        Some(Operator::Contains)
    } else if s == "StartsWith"@ {
        Some(Operator::StartsWith)
    } else if s == "EndsWith"@ {
        Some(Operator::EndsWith)
    } else if s == "In"@ {
        Some(Operator::In)
    } else {
        None
    }
}

/// The operator with a `Debug` name (see `operator_of_debug`).
fn operator_from_debug(s: &str) -> (r: Option<Operator>)
    ensures
        r == operator_of_debug(s@),
{
    proof {
        reveal_strlit("Eq");
        reveal_strlit("Ne");
        reveal_strlit("Gt");
        reveal_strlit("Gte");
        reveal_strlit("Lt");
        reveal_strlit("Lte");
        reveal_strlit("Contains");
        reveal_strlit("StartsWith");
        reveal_strlit("EndsWith");
        reveal_strlit("In");
    }
    if str_eq(s, "Eq") {
        Some(Operator::Eq)
    } else if str_eq(s, "Ne") {
        Some(Operator::Ne)
    } else if str_eq(s, "Gt") {
        Some(Operator::Gt)
    } else if str_eq(s, "Gte") {
        Some(Operator::Gte)
    } else if str_eq(s, "Lt") {
        Some(Operator::Lt)
    } else if str_eq(s, "Lte") {
        Some(Operator::Lte)
    } else if str_eq(s, "Contains") {
        Some(Operator::Contains)
    } else if str_eq(s, "StartsWith") {
        Some(Operator::StartsWith)
    } else if str_eq(s, "EndsWith") {
        Some(Operator::EndsWith)
    } else if str_eq(s, "In") {
        Some(Operator::In)
    } else {
        None
    }
}

/// What is wrong with a serialized condition.
pub enum ConditionFault {
    NoField,
    NoOperator,
    UnknownOperator(Seq<char>),
}

/// What is wrong with serialized condition `c`, if anything: it needs a
/// `field` text and an `operator` text naming an operator.
pub open spec fn condition_fault(c: JsonView) -> Option<ConditionFault> {
    match text_member(c, "field"@) {
        None => Some(ConditionFault::NoField),
        Some(_) => match text_member(c, "operator"@) {
            None => Some(ConditionFault::NoOperator),
            Some(o) => match operator_of_debug(o) {
                None => Some(ConditionFault::UnknownOperator(o)),
                Some(_) => None,
            },
        },
    }
}

/// Whether `e` is the error a fault gives.
pub open spec fn fault_error(f: ConditionFault, e: ExecutorError) -> bool {
    match f {
        ConditionFault::NoField => e matches ExecutorError::MissingData(m) && m@ == "condition field"@,
        ConditionFault::NoOperator => e matches ExecutorError::MissingData(m) && m@ == "condition operator"@,
        ConditionFault::UnknownOperator(o) => e matches ExecutorError::InvalidOperation(m) && m@ == "Unknown operator: "@
            + o,
    }
}

/// Whether `x` is the condition a sound serialized condition `c`
/// describes: its field, its operator, and the value its `value` member
/// becomes (null without one).
pub open spec fn condition_read<T: Fn(Json) -> String>(text: T, c: JsonView, x: ConditionView) -> bool {
    &&& text_member(c, "field"@) == Some(x.field)
    &&& (match text_member(c, "operator"@) {
        Some(o) => operator_of_debug(o) == Some(x.operator),
        None => false,
    })
    &&& match json_get(c, "value"@) {
        Some(v) => value_of_json(text, v, x.value),
        None => x.value == ValueView::Null,
    }
}

/// Whether `r` is the predicate serialized conditions `cv` describe: an
/// array is needed; none means every record; the first faulty condition
/// gives its error; otherwise every condition must hold.
pub open spec fn predicate_read<T: Fn(Json) -> String>(
    text: T,
    cv: Option<JsonView>,
    r: Result<Predicate, ExecutorError>,
) -> bool {
    match cv {
        Some(JsonView::Array(cs)) => if cs.len() == 0 {
            r matches Ok(p) && p is All
        } else if exists|i: int| 0 <= i < cs.len() && condition_fault(cs[i]) is Some {
            exists|i: int|
                #![trigger condition_fault(cs[i])]
                {
                    &&& 0 <= i < cs.len()
                    &&& forall|j: int| 0 <= j < i ==> condition_fault(#[trigger] cs[j]) is None
                    &&& condition_fault(cs[i]) matches Some(f)
                    &&& r matches Err(e)
                    &&& fault_error(f, e)
                }
        } else {
            r matches Ok(Predicate::Where { conditions }) && conditions@.len() == cs.len() && forall|i: int|
                0 <= i < cs.len() ==> condition_read(text, #[trigger] cs[i], conditions@[i]@)
        },
        _ => missing(r, "to_conditions"@),
    }
}

/// The predicate serialized conditions describe (see `predicate_read`).
pub fn build_predicate_from_conditions<T: Fn(Json) -> String>(conditions_value: Option<&Json>, text: &T) -> (r: Result<
    Predicate,
    ExecutorError,
>)
    requires
        forall|x: Json| call_requires(*text, (x,)),
    ensures
        predicate_read(
            *text,
            match conditions_value {
                Some(j) => Some(j@),
                None => None,
            },
            r,
        ),
{
    proof {
        reveal_strlit("to_conditions");
        reveal_strlit("field");
        reveal_strlit("operator");
        reveal_strlit("value");
        reveal_strlit("condition field");
        reveal_strlit("condition operator");
        reveal_strlit("Unknown operator: ");
    }
    let arr = match conditions_value {
        Some(Json::Array(a)) => a,
        _ => return Err(ExecutorError::MissingData(owned("to_conditions"))),
    };
    let ghost cs = items_view(arr@);
    proof {
        crate::json::lemma_array_view(*arr);
        assert(conditions_value.unwrap()@ == JsonView::Array(cs));
    }
    if arr.len() == 0 {
        return Ok(Predicate::All);
    }
    let mut conditions: Vec<Condition> = Vec::new();
    let mut i: usize = 0;
    while i < arr.len()
        invariant
            i <= arr@.len(),
            cs == items_view(arr@),
            cs.len() == arr@.len(),
            cs.len() > 0,
            conditions_value matches Some(j) && j@ == JsonView::Array(cs),
            forall|x: Json| call_requires(*text, (x,)),
            conditions@.len() == i,
            forall|j: int| 0 <= j < i ==> condition_fault(#[trigger] cs[j]) is None,
            forall|j: int| 0 <= j < i ==> condition_read(*text, #[trigger] cs[j], conditions@[j]@),
        decreases arr@.len() - i,
    {
        let c = &arr[i];
        assert(c@ == cs[i as int]);
        let field = match text_of(c, "field") {
            Some(f) => owned(f),
            None => {
                let e = ExecutorError::MissingData(owned("condition field"));
                assert(condition_fault(cs[i as int]) == Some(ConditionFault::NoField));
                assert(fault_error(ConditionFault::NoField, e));
                return Err(e);
            },
        };
        let op_text = match text_of(c, "operator") {
            Some(o) => o,
            None => {
                let e = ExecutorError::MissingData(owned("condition operator"));
                assert(condition_fault(cs[i as int]) == Some(ConditionFault::NoOperator));
                assert(fault_error(ConditionFault::NoOperator, e));
                return Err(e);
            },
        };
        let operator = match operator_from_debug(op_text) {
            Some(o) => o,
            None => {
                let mut m = owned("Unknown operator: ");
                m.append(op_text);
                let e = ExecutorError::InvalidOperation(m);
                assert(condition_fault(cs[i as int]) == Some(ConditionFault::UnknownOperator(op_text@)));
                assert(fault_error(ConditionFault::UnknownOperator(op_text@), e));
                return Err(e);
            },
        };
        let value = match c.get("value") {
            Some(v) => json_to_value(v, text),
            None => Value::Null,
        };
        conditions.push(Condition { field, operator, value });
        i = i + 1;
    }
    proof {
        assert(!exists|j: int| 0 <= j < cs.len() && condition_fault(cs[j]) is Some);
    }
    Ok(Predicate::Where { conditions })
}

// ---------------------------------------------------------------------------
// LINK
// ---------------------------------------------------------------------------

/// The memory kind with a `Debug` name.
pub open spec fn memory_type_of_debug(s: Seq<char>) -> Option<MemoryType> {
    if s == "Working"@ {
        Some(MemoryType::Working)
    } else if s == "Tools"@ {
        Some(MemoryType::Tools)
    } else if s == "Procedural"@ {
        Some(MemoryType::Procedural)
    } else if s == "Semantic"@ {
        Some(MemoryType::Semantic)
    } else if s == "Episodic"@ {
        Some(MemoryType::Episodic)
    } else {
        None
    }
}

/// The memory kind with a `Debug` name (see `memory_type_of_debug`).
fn memory_type_from_debug(s: &str) -> (r: Option<MemoryType>)
    ensures
        r == memory_type_of_debug(s@),
{
    proof {
        reveal_strlit("Working");
        reveal_strlit("Tools");
        reveal_strlit("Procedural");
        reveal_strlit("Semantic");
        reveal_strlit("Episodic");
    }
    if str_eq(s, "Working") {
        Some(MemoryType::Working)
    } else if str_eq(s, "Tools") {
        Some(MemoryType::Tools)
    } else if str_eq(s, "Procedural") {
        Some(MemoryType::Procedural)
    } else if str_eq(s, "Semantic") {
        Some(MemoryType::Semantic)
    } else if str_eq(s, "Episodic") {
        Some(MemoryType::Episodic)
    } else {
        None
    }
}

/// What a LINK step's data asks for, besides its sources.
#[derive(Debug)]
pub struct LinkFields {
    pub link_type: String,
    /// An `f32` bit pattern.
    pub weight: u32,
    pub to_type: MemoryType,
    pub to_predicate: Predicate,
}

/// The weight a LINK step's data asks for: its `weight` number narrowed
/// to a single, one without one.
pub open spec fn link_weight(d: JsonView) -> u32 {
    match json_get(d, "weight"@) {
        Some(v) => match json_as_f64(v) {
            Some(b) => f32_of_f64(b) as u32,
            None => F32_ONE,
        },
        None => F32_ONE,
    }
}

/// Whether `r` is what the data `d` of a LINK step asks for: a
/// `link_type` text, a `to_type` text naming a memory kind, and target
/// conditions (see `predicate_read`), in that order of need.
pub open spec fn link_fields_read<T: Fn(Json) -> String>(text: T, d: JsonView, r: Result<LinkFields, ExecutorError>) -> bool {
    match text_member(d, "link_type"@) {
        None => missing(r, "link_type"@),
        Some(lt) => match text_member(d, "to_type"@) {
            None => missing(r, "to_type"@),
            Some(tt) => match memory_type_of_debug(tt) {
                None => r matches Err(ExecutorError::InvalidOperation(m)) && m@ == "Invalid target memory type: "@ + tt,
                Some(to) => match r {
                    Ok(f) => {
                        &&& f.link_type@ == lt
                        &&& f.weight == link_weight(d)
                        &&& f.to_type == to
                        &&& predicate_read(text, json_get(d, "to_conditions"@), Ok(f.to_predicate))
                    },
                    Err(e) => predicate_read(text, json_get(d, "to_conditions"@), Err(e)),
                },
            },
        },
    }
}

/// Reads what a LINK step's data asks for (see `link_fields_read`).
pub fn link_fields<T: Fn(Json) -> String>(data: &Json, text: &T) -> (r: Result<LinkFields, ExecutorError>)
    requires
        forall|x: Json| call_requires(*text, (x,)),
    ensures
        link_fields_read(*text, data@, r),
{
    proof {
        reveal_strlit("link_type");
        reveal_strlit("weight");
        reveal_strlit("to_type");
        reveal_strlit("to_conditions");
        reveal_strlit("Invalid target memory type: ");
    }
    let link_type = match text_of(data, "link_type") {
        Some(t) => owned(t),
        None => return Err(ExecutorError::MissingData(owned("link_type"))),
    };
    let weight = match data.get("weight") {
        Some(v) => match v.as_f64_bits() {
            Some(b) => f32_bits_of_f64(b),
            None => F32_ONE,
        },
        None => F32_ONE,
    };
    let to_text = match text_of(data, "to_type") {
        Some(t) => t,
        None => return Err(ExecutorError::MissingData(owned("to_type"))),
    };
    let to_type = match memory_type_from_debug(to_text) {
        Some(t) => t,
        None => {
            let mut m = owned("Invalid target memory type: ");
            m.append(to_text);
            return Err(ExecutorError::InvalidOperation(m));
        },
    };
    match build_predicate_from_conditions(data.get("to_conditions"), text) {
        Ok(to_predicate) => Ok(LinkFields { link_type, weight, to_type, to_predicate }),
        Err(e) => Err(e),
    }
}

// ---------------------------------------------------------------------------
// Links shown with records
// ---------------------------------------------------------------------------

/// How a link is shown with a record: its type, target key and kind (the
/// kind's `Debug` name) and weight (widened to a double), members in key
/// order.
pub open spec fn link_json(l: LinkView) -> JsonView {
    JsonView::Object(
        seq![
            ("link_type"@, JsonView::String(l.link_type)),
            ("to_id"@, JsonView::String(l.to_id)),
            ("to_type"@, JsonView::String(memory_type_debug(l.to_type))),
            ("weight"@, json_of_f64(f64_of_f32(l.weight) as u64)),
        ],
    )
}

/// A payload with its links set as member `links`, when it is an object.
pub open spec fn with_links_data(d: JsonView, links: Seq<LinkView>) -> JsonView {
    match d {
        JsonView::Object(m) => JsonView::Object(
            object_set(m, "links"@, JsonView::Array(links.map_values(|l: LinkView| link_json(l)))),
        ),
        _ => d,
    }
}

/// How a link is shown with a record (see `link_json`).
pub fn link_to_json(l: &Link) -> (r: Json)
    ensures
        r@ == link_json(l@),
{
    let mut m: Vec<(String, Json)> = Vec::new();
    push_member(&mut m, "link_type", string_of(l.link_type.as_str()));
    push_member(&mut m, "to_id", string_of(l.to_id.as_str()));
    push_member(&mut m, "to_type", string_of(memory_type_debug_name(l.to_type)));
    push_member(&mut m, "weight", json_from_f64(f64_bits_of_f32(l.weight)));
    let r = object_of(m);
    proof {
        reveal_strlit("link_type");
        reveal_strlit("to_id");
        reveal_strlit("to_type");
        reveal_strlit("weight");
        assert(r@->Object_0 =~= link_json(l@)->Object_0);
    }
    r
}

/// A record with its links set as payload member `links` (see
/// `with_links_data`).
pub fn add_links(record: &mut MemoryRecord, links: &Vec<Link>)
    ensures
        final(record)@ == (RecordView { data: with_links_data(old(record)@.data, link_views(links@)), ..old(record)@ }),
{
    let ghost lv = link_views(links@);
    let ghost shown = lv.map_values(|l: LinkView| link_json(l));
    let mut items: Vec<Json> = Vec::new();
    let mut i: usize = 0;
    while i < links.len()
        invariant
            i <= links@.len(),
            lv == link_views(links@),
            shown == lv.map_values(|l: LinkView| link_json(l)),
            items_view(items@) == shown.take(i as int),
        decreases links@.len() - i,
    {
        let j = link_to_json(&links[i]);
        push_item(&mut items, j);
        proof {
            assert(shown.take(i + 1) =~= shown.take(i as int).push(link_json(lv[i as int])));
        }
        i = i + 1;
    }
    proof {
        assert(shown.take(links@.len() as int) =~= shown);
    }
    match &mut record.data {
        Json::Object(m) => {
            proof {
                crate::json::lemma_object_view(*m);
            }
            set_member(m, owned("links"), array_of(items));
            proof {
                crate::json::lemma_object_view(*m);
                reveal_strlit("links");
            }
        },
        _ => {},
    }
}

} // verus!

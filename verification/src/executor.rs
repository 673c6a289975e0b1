//! Execution of query plans against a memory database.
//!
//! What a query needs of floating-point numbers and of JSON text (reading a
//! double from text, weighing a tool's ranking with its relevance,
//! reducing the doubles of an aggregate, writing a document as text) the executor asks of
//! the caller through `Outside`; everything else it decides itself.
use vstd::prelude::*;
use crate::adb::{adb_lookup, adb_recall, forgot, stored, update_done, Adb};
use crate::episodic::aggregated;
use crate::link::{Link, LinkView};
use crate::links::{id_index, link_views, links_from, opt_str_view};
use crate::order::record_views;
use crate::ast::{AstMemoryType, RecallStmt, Statement};
use crate::planner::{plan_failed, plannable, planned, target_type, Planner};
use crate::predicate::{all_conditions_hold, conditions_hold, no_modifiers, AggregateFuncType, Modifiers, WithLinks};
use crate::result::{QueryResult, ResultMetadata, ResultSet, SourceResult};
use crate::scope::Scope;
use crate::steps::{add_links, link_fields, link_fields_read, missing, store_fields, store_fields_of, text_member, with_links_data, LinkFields, StoreFields};
use crate::time::{clock_now, Timestamp};
use crate::records::limited;
use crate::working::working_scan;
use crate::memory::RecordView;
use crate::error::{error_text, AdbError};
use crate::json::{json_as_f64, json_as_str, json_get, number_as_f64, number_as_i64, Json, JsonView, Number};
use crate::memory::{opt_view, MemoryRecord, MemoryType};
use crate::plan::{
    memory_type_debug, memory_type_debug_name, plan_error_text, ExecutionPlan, FanOutPlan, Operation, PipelinePlan,
    PipelineStage, PlanError, ReflectPlan, ReflectSourcePlan, StepPlan,
};
use crate::predicate::{Condition, ConditionView, Operator, Predicate, PredicateView, Value, ValueView};
use crate::text::{copy_string, decimal, owned, push_decimal, str_eq};
use crate::time::Ttl;

verus! {

broadcast use vstd::string::group_string_axioms;

// ---------------------------------------------------------------------------
// Errors
// ---------------------------------------------------------------------------

/// Why a query failed.
#[derive(Debug)]
pub enum ExecutorError {
    Planning(PlanError),
    Backend(AdbError),
    Parse(String),
    Timeout(Ttl),
    InvalidOperation(String),
    MissingData(String),
    PipelineError { step: usize, message: String },
    UnsupportedOperation(String),
    /// A link statement found no records on one side.
    LinkValidation(String),
}

/// What `{:?}` renders for a span of time (`Duration`'s `Debug`).
pub uninterp spec fn duration_debug_of(secs: u64, nanos: u32) -> Seq<char>;

/// Renders a span with `Duration`'s `Debug` (`format!("{:?}", ..)`); the
/// result is named `duration_debug_of`.
#[verifier::external_body]
fn duration_debug(t: &Ttl) -> (r: String)
    ensures
        r@ == duration_debug_of(t.secs_of() as u64, t.nanos_of() as u32),
{
    format!("{:?}", t.as_duration())
}

/// The message of an executor error.
pub open spec fn executor_error_text(e: ExecutorError) -> Seq<char> {
    match e {
        ExecutorError::Planning(p) => "Planning error: "@ + plan_error_text(p),
        ExecutorError::Backend(b) => "Backend error: "@ + error_text(b),
        ExecutorError::Parse(s) => "Parse error: "@ + s@,
        ExecutorError::Timeout(t) => "Query timed out after "@ + duration_debug_of(t.secs_of() as u64, t.nanos_of() as u32),
        ExecutorError::InvalidOperation(s) => "Invalid operation: "@ + s@,
        ExecutorError::MissingData(s) => "Missing required data: "@ + s@,
        ExecutorError::PipelineError { step, message } => "Pipeline failed at step "@ + decimal(step as nat) + ": "@
            + message@,
        ExecutorError::UnsupportedOperation(s) => "Unsupported operation: "@ + s@,
        ExecutorError::LinkValidation(s) => "Link validation failed: "@ + s@,
    }
}

impl ExecutorError {
    /// The message of this error.
    pub fn to_string(&self) -> (r: String)
        ensures
            r@ == executor_error_text(*self),
    {
        proof {
            reveal_strlit("Planning error: ");
            reveal_strlit("Backend error: ");
            reveal_strlit("Parse error: ");
            reveal_strlit("Query timed out after ");
            reveal_strlit("Invalid operation: ");
            reveal_strlit("Missing required data: ");
            reveal_strlit("Pipeline failed at step ");
            reveal_strlit(": ");
            reveal_strlit("Unsupported operation: ");
            reveal_strlit("Link validation failed: ");
        }
        let (head, rest) = match self {
            ExecutorError::Planning(p) => ("Planning error: ", p.to_string()),
            ExecutorError::Backend(b) => ("Backend error: ", b.to_string()),
            ExecutorError::Parse(s) => ("Parse error: ", s.clone()),
            ExecutorError::Timeout(t) => ("Query timed out after ", duration_debug(t)),
            ExecutorError::InvalidOperation(s) => ("Invalid operation: ", s.clone()),
            ExecutorError::MissingData(s) => ("Missing required data: ", s.clone()),
            ExecutorError::PipelineError { step, message } => {
                let mut t = String::new();
                push_decimal(&mut t, *step as u128);
                t.append(": ");
                t.append(message.as_str());
                ("Pipeline failed at step ", t)
            },
            ExecutorError::UnsupportedOperation(s) => ("Unsupported operation: ", s.clone()),
            ExecutorError::LinkValidation(s) => ("Link validation failed: ", s.clone()),
        };
        let mut out = owned(head);
        out.append(rest.as_str());
        proof {
            assert(out@ =~= executor_error_text(*self));
        }
        out
    }
}

impl From<PlanError> for ExecutorError {
    fn from(e: PlanError) -> (r: ExecutorError) {
        ExecutorError::Planning(e)
    }
}

impl vstd::std_specs::convert::FromSpecImpl<PlanError> for ExecutorError {
    open spec fn obeys_from_spec() -> bool {
        true
    }

    open spec fn from_spec(e: PlanError) -> ExecutorError {
        ExecutorError::Planning(e)
    }
}

impl From<AdbError> for ExecutorError {
    fn from(e: AdbError) -> (r: ExecutorError) {
        ExecutorError::Backend(e)
    }
}

impl vstd::std_specs::convert::FromSpecImpl<AdbError> for ExecutorError {
    open spec fn obeys_from_spec() -> bool {
        true
    }

    open spec fn from_spec(e: AdbError) -> ExecutorError {
        ExecutorError::Backend(e)
    }
}

// ---------------------------------------------------------------------------
// What the executor asks of its caller
// ---------------------------------------------------------------------------

/// The work on floating-point numbers and JSON text a query may need:
/// `parse` reads a double (as its bit pattern) from text, `weigh` combines
/// a tool's ranking with its relevance to a task (singles as bit
/// patterns), `reduce` computes the sum, mean, least or greatest of
/// doubles (bit patterns) for an aggregate, and `text` writes a document as
/// JSON text.
pub struct Outside<P, W, A, T> where
    P: Fn(String) -> Option<u64>,
    W: Fn(u32, u32) -> u32,
    A: Fn(AggregateFuncType, Vec<u64>) -> u64,
    T: Fn(Json) -> String,
 {
    pub parse: P,
    pub weigh: W,
    pub reduce: A,
    pub text: T,
}

/// The caller's functions accept every argument.
pub open spec fn outside_total<P, W, A, T>(o: Outside<P, W, A, T>) -> bool where
    P: Fn(String) -> Option<u64>,
    W: Fn(u32, u32) -> u32,
    A: Fn(AggregateFuncType, Vec<u64>) -> u64,
    T: Fn(Json) -> String,
 {
    &&& forall|s: String| call_requires(o.parse, (s,))
    &&& forall|a: u32, b: u32| call_requires(o.weigh, (a, b))
    &&& forall|f: AggregateFuncType, v: Vec<u64>| call_requires(o.reduce, (f, v))
    &&& forall|j: Json| call_requires(o.text, (j,))
}

// ---------------------------------------------------------------------------
// Values from payloads, and variable bindings
// ---------------------------------------------------------------------------

/// Whether `v` is the condition value a payload value becomes: integers
/// that fit an `i64` stay integers, other numbers become doubles, arrays
/// convert item by item, and an object becomes its JSON text as written by
/// `text`.
pub open spec fn value_of_json<T: Fn(Json) -> String>(text: T, j: JsonView, v: ValueView) -> bool
    decreases j,
{
    match j {
        JsonView::Null => v == ValueView::Null,
        JsonView::Bool(b) => v == ValueView::Bool(b),
        JsonView::Number(n) => v == match number_as_i64(n) {
            Some(i) => ValueView::Int(i),
            None => ValueView::Float(number_as_f64(n)),
        },
        JsonView::String(s) => v == ValueView::String(s),
        JsonView::Array(items) => match v {
            ValueView::Array(vs) => vs.len() == items.len() && forall|i: int|
                0 <= i < items.len() ==> value_of_json(text, #[trigger] items[i], vs[i]),
            _ => false,
        },
        JsonView::Object(_) => match v {
            ValueView::String(s) => exists|x: Json, t: String| x@ == j && call_ensures(text, (x,), t) && t@ == s,
            _ => false,
        },
    }
}

/// The condition value of a payload value (see `value_of_json`).
#[verifier::loop_isolation(false)]
pub fn json_to_value<T: Fn(Json) -> String>(j: &Json, text: &T) -> (r: Value)
    requires
        forall|x: Json| call_requires(*text, (x,)),
    ensures
        value_of_json(*text, j@, r@),
    decreases j,
{
    match j {
        Json::Null => Value::Null,
        Json::Bool(b) => Value::Bool(*b),
        Json::Number(n) => match n.as_i64() {
            Some(i) => Value::Int(i),
            None => Value::Float(n.as_f64_bits()),
        },
        Json::String(s) => Value::String(s.clone()),
        Json::Array(items) => {
            let ghost iv = j@->Array_0;
            proof {
                crate::json::lemma_array_view(*items);
            }
            let mut out: Vec<Value> = Vec::new();
            let mut i: usize = 0;
            while i < items.len()
                invariant
                    i <= items@.len(),
                    iv == crate::json::items_view(items@),
                    j@ == JsonView::Array(iv),
                    out@.len() == i,
                    forall|x: Json| call_requires(*text, (x,)),
                    forall|k: int| 0 <= k < i ==> value_of_json(*text, #[trigger] iv[k], out@[k]@),
                decreases items@.len() - i,
            {
                assert(iv[i as int] == items@[i as int]@);
                let v = json_to_value(&items[i], text);
                out.push(v);
                i = i + 1;
            }
            let r = Value::Array(out);
            proof {
                let rv = r@;
                assert(rv->Array_0.len() == iv.len());
                assert forall|k: int| 0 <= k < iv.len() implies value_of_json(*text, #[trigger] iv[k], rv->Array_0[k]) by {
                    assert(rv->Array_0[k] == out@[k]@);
                }
            }
            r
        },
        Json::Object(_) => {
            let c = j.copy();
            let ghost cv = c;
            let t = text(c);
            proof {
                assert(call_ensures(*text, (cv,), t));
            }
            Value::String(t)
        },
    }
}

/// The views of bindings.
pub open spec fn binding_views(b: Seq<(String, Value)>) -> Seq<(Seq<char>, ValueView)> {
    b.map_values(|e: (String, Value)| (e.0@, e.1@))
}

/// The value bound to `name`, if any (names are unique).
pub open spec fn binding_of(b: Seq<(Seq<char>, ValueView)>, name: Seq<char>) -> Option<ValueView> {
    if exists|i: int| 0 <= i < b.len() && b[i].0 == name {
        Some(b[choose|i: int| 0 <= i < b.len() && b[i].0 == name].1)
    } else {
        None
    }
}

/// Names of bindings are unique.
pub open spec fn bindings_wf(b: Seq<(Seq<char>, ValueView)>) -> bool {
    forall|i: int, j: int| 0 <= i < j < b.len() ==> b[i].0 != b[j].0
}

/// A value with a bound variable replaced by its value.
pub open spec fn bound_value(b: Seq<(Seq<char>, ValueView)>, v: ValueView) -> ValueView {
    match v {
        ValueView::Variable(n) => match binding_of(b, n) {
            Some(x) => x,
            None => v,
        },
        _ => v,
    }
}

/// A predicate with the variables of its conditions (or key) bound.
pub open spec fn bound_predicate(b: Seq<(Seq<char>, ValueView)>, p: PredicateView) -> PredicateView {
    match p {
        PredicateView::Where { conditions } => PredicateView::Where {
            conditions: conditions.map_values(
                |c: ConditionView| ConditionView { value: bound_value(b, c.value), ..c },
            ),
        },
        PredicateView::Key { field, value } => PredicateView::Key { field, value: bound_value(b, value) },
        _ => p,
    }
}

/// A copy of a value with a bound variable replaced (see `bound_value`).
pub fn bind_value(v: &Value, bindings: &Vec<(String, Value)>) -> (r: Value)
    requires
        bindings_wf(binding_views(bindings@)),
    ensures
        r@ == bound_value(binding_views(bindings@), v@),
{
    match v {
        Value::Variable(name) => {
            let ghost bv = binding_views(bindings@);
            let mut i: usize = 0;
            while i < bindings.len()
                invariant
                    i <= bindings@.len(),
                    bv == binding_views(bindings@),
                    bindings_wf(bv),
                    v@ == ValueView::Variable(name@),
                    forall|k: int| 0 <= k < i ==> bv[k].0 != name@,
                decreases bindings@.len() - i,
            {
                if str_eq(bindings[i].0.as_str(), name.as_str()) {
                    proof {
                        let c = choose|c: int| 0 <= c < bv.len() && bv[c].0 == name@;
                        assert(bv[i as int].0 == name@);
                        if c != i as int {
                            if c < i as int {
                                assert(bv[c].0 != name@);
                            } else {
                                assert(bv[i as int].0 != bv[c].0);
                            }
                        }
                    }
                    return bindings[i].1.copy();
                }
                i = i + 1;
            }
            v.copy()
        },
        _ => v.copy(),
    }
}

/// A copy of a predicate with its variables bound (see `bound_predicate`).
pub fn bind_variables_in_predicate(p: &Predicate, bindings: &Vec<(String, Value)>) -> (r: Predicate)
    requires
        bindings_wf(binding_views(bindings@)),
    ensures
        r@ == bound_predicate(binding_views(bindings@), p@),
{
    match p {
        Predicate::Where { conditions } => {
            let ghost cv = crate::predicate::condition_views(conditions@);
            let ghost bv = binding_views(bindings@);
            let ghost f = |c: ConditionView| ConditionView { value: bound_value(bv, c.value), ..c };
            let mut out: Vec<Condition> = Vec::new();
            let mut i: usize = 0;
            while i < conditions.len()
                invariant
                    i <= conditions@.len(),
                    cv == crate::predicate::condition_views(conditions@),
                    bv == binding_views(bindings@),
                    bindings_wf(bv),
                    f == (|c: ConditionView| ConditionView { value: bound_value(bv, c.value), ..c }),
                    crate::predicate::condition_views(out@) == cv.take(i as int).map_values(f),
                decreases conditions@.len() - i,
            {
                let c = &conditions[i];
                let nc = Condition { field: c.field.clone(), operator: c.operator, value: bind_value(&c.value, bindings) };
                let ghost before = crate::predicate::condition_views(out@);
                out.push(nc);
                proof {
                    assert(cv[i as int] == c@);
                    assert(crate::predicate::condition_views(out@) =~= before.push(f(cv[i as int])));
                    assert(crate::predicate::condition_views(out@) =~= cv.take(i + 1).map_values(f));
                }
                i = i + 1;
            }
            proof {
                assert(cv.take(conditions@.len() as int) =~= cv);
            }
            Predicate::Where { conditions: out }
        },
        Predicate::Key { field, value } => Predicate::Key { field: field.clone(), value: bind_value(value, bindings) },
        _ => p.copy(),
    }
}

/// The bindings with `name` set to `v` (replaced, or added at the end).
pub open spec fn bind(b: Seq<(Seq<char>, ValueView)>, name: Seq<char>, v: ValueView) -> Seq<(Seq<char>, ValueView)> {
    if exists|i: int| 0 <= i < b.len() && b[i].0 == name {
        b.update(choose|i: int| 0 <= i < b.len() && b[i].0 == name, (name, v))
    } else {
        b.push((name, v))
    }
}

/// Sets binding `name` to `v`.
fn set_binding(bindings: &mut Vec<(String, Value)>, name: String, v: Value)
    requires
        bindings_wf(binding_views(old(bindings)@)),
    ensures
        binding_views(final(bindings)@) == bind(binding_views(old(bindings)@), name@, v@),
        bindings_wf(binding_views(final(bindings)@)),
{
    let ghost bv = binding_views(bindings@);
    let ghost nv = name@;
    let ghost vv = v@;
    let mut i: usize = 0;
    while i < bindings.len()
        invariant
            i <= bindings@.len(),
            bv == binding_views(bindings@),
            bv == binding_views(old(bindings)@),
            bindings_wf(bv),
            nv == name@,
            vv == v@,
            forall|k: int| 0 <= k < i ==> bv[k].0 != nv,
        decreases bindings@.len() - i,
    {
        if str_eq(bindings[i].0.as_str(), name.as_str()) {
            proof {
                let c = choose|c: int| 0 <= c < bv.len() && bv[c].0 == nv;
                assert(bv[i as int].0 == nv);
                if c != i as int {
                    if c < i as int {
                        assert(bv[c].0 != nv);
                    } else {
                        assert(bv[i as int].0 != bv[c].0);
                    }
                }
            }
            bindings.set(i, (name, v));
            proof {
                assert(binding_views(bindings@) =~= bv.update(i as int, (nv, vv)));
                let b2 = binding_views(bindings@);
                assert forall|a: int, c: int| 0 <= a < c < b2.len() implies b2[a].0 != b2[c].0 by {
                    assert(bv[a].0 != bv[c].0);
                }
            }
            return;
        }
        i = i + 1;
    }
    bindings.push((name, v));
    proof {
        assert(binding_views(bindings@) =~= bv.push((nv, vv)));
        let b2 = binding_views(bindings@);
        assert forall|a: int, c: int| 0 <= a < c < b2.len() implies b2[a].0 != b2[c].0 by {
            if c == bv.len() {
                assert(bv[a].0 != nv);
            } else {
                assert(bv[a].0 != bv[c].0);
            }
        }
    }
}

/// The bindings with each name set in turn to its value.
pub open spec fn bound_all(
    before: Seq<(Seq<char>, ValueView)>,
    names: Seq<Seq<char>>,
    values: Seq<ValueView>,
) -> Seq<(Seq<char>, ValueView)>
    decreases names.len(),
{
    if names.len() == 0 || values.len() != names.len() {
        before
    } else {
        bind(bound_all(before, names.drop_last(), values.drop_last()), names.last(), values.last())
    }
}

/// Whether `values` are what the members of an object convert to (see
/// `value_of_json`).
pub open spec fn member_values<T: Fn(Json) -> String>(
    text: T,
    members: Seq<(Seq<char>, JsonView)>,
    values: Seq<ValueView>,
) -> bool {
    values.len() == members.len() && forall|i: int|
        0 <= i < members.len() ==> value_of_json(text, #[trigger] members[i].1, values[i])
}

/// The names of an object's members.
pub open spec fn member_names(members: Seq<(Seq<char>, JsonView)>) -> Seq<Seq<char>> {
    members.map_values(|m: (Seq<char>, JsonView)| m.0)
}

/// The bindings with every member of a payload bound, when it is an
/// object.
fn bind_members<T: Fn(Json) -> String>(bindings: Vec<(String, Value)>, data: &Json, text: &T) -> (r: Vec<(String, Value)>)
    requires
        bindings_wf(binding_views(bindings@)),
        forall|x: Json| call_requires(*text, (x,)),
    ensures
        bindings_wf(binding_views(r@)),
        data@ is Object ==> exists|values: Seq<ValueView>|
            #[trigger] member_values(*text, data@->Object_0, values) && binding_views(r@) == bound_all(
                binding_views(bindings@),
                member_names(data@->Object_0),
                values,
            ),
        !(data@ is Object) ==> binding_views(r@) == binding_views(bindings@),
{
    let mut out = bindings;
    match data {
        Json::Object(m) => {
            proof {
                crate::json::lemma_object_view(*m);
            }
            let ghost mv = crate::json::members_view(m@);
            let ghost b0 = binding_views(out@);
            let ghost mut vals: Seq<ValueView> = Seq::empty();
            let mut i: usize = 0;
            while i < m.len()
                invariant
                    i <= m@.len(),
                    mv == crate::json::members_view(m@),
                    bindings_wf(binding_views(out@)),
                    forall|x: Json| call_requires(*text, (x,)),
                    vals.len() == i,
                    forall|k: int| 0 <= k < i ==> value_of_json(*text, #[trigger] mv[k].1, vals[k]),
                    binding_views(out@) == bound_all(b0, member_names(mv).take(i as int), vals),
                decreases m@.len() - i,
            {
                let v = json_to_value(&m[i].1, text);
                let ghost vv = v@;
                set_binding(&mut out, m[i].0.clone(), v);
                proof {
                    assert(mv[i as int] == (m@[i as int].0@, m@[i as int].1@));
                    let names = member_names(mv);
                    assert(names.take(i + 1).drop_last() =~= names.take(i as int));
                    assert(vals.push(vv).drop_last() =~= vals);
                    assert(names.take(i + 1).last() == m@[i as int].0@);
                    vals = vals.push(vv);
                }
                i = i + 1;
            }
            proof {
                assert(member_names(mv).take(m@.len() as int) =~= member_names(mv));
                assert(data@ == JsonView::Object(mv));
                assert(data@->Object_0 == mv);
                assert(member_values(*text, data@->Object_0, vals));
                assert(binding_views(out@) == bound_all(binding_views(bindings@), member_names(data@->Object_0), vals));
            }
            out
        },
        _ => {
            assert(!(data@ is Object));
            out
        },
    }
}

// ---------------------------------------------------------------------------
// What queries give
// ---------------------------------------------------------------------------

/// The records a SCAN gives at instant `now`: the live working-memory
/// records, within the window when one is given, at most the limit.
pub open spec fn scan_records(a: Adb, m: Modifiers, now: Timestamp) -> Seq<RecordView> {
    limited(working_scan(a.working_backend()@.records, m.window, now), m.limit)
}

/// The type of the links shown with records, when only one type is.
pub open spec fn link_filter(w: WithLinks) -> Option<Seq<char>> {
    match w {
        WithLinks::All => None,
        WithLinks::Type { link_type } => Some(link_type@),
    }
}

/// Records with their links (of type `k`, when given) set as payload
/// member `links`.
pub open spec fn shown_with_links(a: Adb, s: Seq<RecordView>, k: Option<Seq<char>>) -> Seq<RecordView> {
    s.map_values(
        |r: RecordView|
            RecordView { data: with_links_data(r.data, links_from(a.link_backend()@.links, r.memory_type, r.id, k)), ..r },
    )
}

/// The links from each of the records (of type `k`, when given), record by
/// record.
pub open spec fn links_of(a: Adb, s: Seq<RecordView>, k: Option<Seq<char>>) -> Seq<LinkView> {
    s.map_values(|r: RecordView| links_from(a.link_backend()@.links, r.memory_type, r.id, k)).flatten()
}

/// The predicate looking a record up by its key.
pub open spec fn id_key_view(id: Seq<char>) -> PredicateView {
    PredicateView::Key { field: "id"@, value: ValueView::String(id) }
}

/// Whether `part` is what looking up the target of link `l` by its key
/// gives at instant `now`.
pub open spec fn target_found(a: Adb, l: LinkView, now: Timestamp, part: Seq<RecordView>) -> bool {
    exists|q: Predicate, m: Modifiers|
        {
            &&& q@ == id_key_view(l.to_id)
            &&& no_modifiers(m)
            &&& part == #[trigger] adb_lookup(a, l.to_type, q, m, now)
        }
}

/// Whether `parts[i]` is what looking up the target of `links[i]` by its
/// key gives at instant `now`.
pub open spec fn looked_up_targets(a: Adb, links: Seq<LinkView>, now: Timestamp, parts: Seq<Seq<RecordView>>) -> bool {
    &&& parts.len() == links.len()
    &&& forall|i: int| 0 <= i < links.len() ==> #[trigger] target_found(a, links[i], now, parts[i])
}

/// Whether a query result is a successful list of records with the given
/// values.
pub open spec fn gave_records(r: QueryResult, s: Seq<RecordView>) -> bool {
    &&& r.success
    &&& r.data matches ResultSet::Records { records } && record_views(records@) == s
}

/// Whether `d` is what a RECALL step gives at instant `now`: with
/// aggregates, their document (see `aggregated`), or null when the HAVING
/// conditions do not hold of it; else the records the links of the
/// recalled records lead to, when links are followed; else the recalled
/// records, with their links when asked.
pub open spec fn recall_outcome<P, W, A, T>(a: Adb, st: StepPlan, o: Outside<P, W, A, T>, now: Timestamp, r: QueryResult) -> bool where
    P: Fn(String) -> Option<u64>,
    W: Fn(u32, u32) -> u32,
    A: Fn(AggregateFuncType, Vec<u64>) -> u64,
    T: Fn(Json) -> String,
 {
    let recs = adb_recall(a, st.memory_type, st.predicate, st.modifiers, now);
    match st.modifiers.aggregate {
        Some(funcs) => exists|j: Json|
            {
                &&& #[trigger] aggregated(o.parse, o.reduce, recs, funcs@, j@)
                &&& r.success
                &&& r.data == ResultSet::Aggregation {
                    values: if (match st.modifiers.having {
                        Some(cs) => conditions_hold(cs@, j@),
                        None => true,
                    }) {
                        j
                    } else {
                        Json::Null
                    },
                }
            },
        None => match st.modifiers.follow_links {
            Some(f) => exists|parts: Seq<Seq<RecordView>>|
                #[trigger] looked_up_targets(a, links_of(a, recs, Some(f.link_type@)), now, parts) && gave_records(
                    r,
                    parts.flatten(),
                ),
            None => gave_records(
                r,
                match st.modifiers.with_links {
                    Some(w) => shown_with_links(a, recs, link_filter(w)),
                    None => recs,
                },
            ),
        },
    }
}

/// Whether `r` is what a LOOKUP step gives at instant `now`: the records
/// found, with their links when asked.
pub open spec fn lookup_outcome(a: Adb, st: StepPlan, now: Timestamp, r: QueryResult) -> bool {
    let recs = adb_lookup(a, st.memory_type, st.predicate, st.modifiers, now);
    gave_records(
        r,
        match st.modifiers.with_links {
            Some(w) => shown_with_links(a, recs, link_filter(w)),
            None => recs,
        },
    )
}

/// Whether `r` is what a LOAD step gives at instant `now`: the tools
/// satisfying the predicate, ranked (rankings weighed by `weigh`), at most
/// the limit (ten by default).
pub open spec fn load_outcome<W: Fn(u32, u32) -> u32>(a: Adb, st: StepPlan, weigh: W, now: Timestamp, r: QueryResult) -> bool {
    let limit = match st.modifiers.limit {
        Some(n) => n,
        None => 10,
    };
    let found = crate::tools::matching_tools(a.tools_backend(), st.predicate);
    exists|scores: Seq<u32>|
        {
            &&& #[trigger] crate::tools::load_scores(weigh, found, crate::tools::task_type_of(st.predicate), scores)
            &&& gave_records(r, crate::tools::ranked_records(found, scores, limit, a.tools_backend().scope(), now))
        }
}

/// The number of records a query touched.
pub open spec fn gave_count(r: QueryResult, n: u64) -> bool {
    r.success && r.data == ResultSet::Count { count: n }
}

/// Whether `b` and `r` are what a STORE step does to `a` at instant `now`:
/// it needs data with a key, and stores what the data asks for (see
/// `store_fields_of`).
pub open spec fn store_outcome<F: Fn(String) -> Option<u64>>(
    a: Adb,
    b: Adb,
    st: StepPlan,
    parse: F,
    now: Timestamp,
    r: Result<QueryResult, ExecutorError>,
) -> bool {
    match st.data {
        None => missing(r, "store data"@) && b == a,
        Some(d) => match text_member(d@, "key"@) {
            None => missing(r, "key"@) && b == a,
            Some(_) => exists|f: StoreFields|
                {
                    &&& #[trigger] store_fields_of(d@, f)
                    &&& r matches Ok(q)
                    &&& q.success
                    &&& q.data matches ResultSet::Stored { record }
                    &&& stored(
                        a,
                        b,
                        st.memory_type,
                        f.key@,
                        f.payload@,
                        f.scope,
                        opt_view(f.namespace),
                        f.ttl,
                        parse,
                        now,
                        record@,
                    )
                },
        },
    }
}

/// Whether `b` and `r` are what an UPDATE step does to `a` at instant
/// `now`: it needs data, and updates the records satisfying the predicate
/// with it (see `update_done`), failing as the database does.
pub open spec fn update_outcome<F: Fn(String) -> Option<u64>>(
    a: Adb,
    b: Adb,
    st: StepPlan,
    parse: F,
    now: Timestamp,
    r: Result<QueryResult, ExecutorError>,
) -> bool {
    match st.data {
        None => missing(r, "update data"@) && b == a,
        Some(d) => exists|x: Result<u64, AdbError>|
            {
                &&& #[trigger] update_done(a, b, st.memory_type, st.predicate, d@, parse, now, x)
                &&& match x {
                    Ok(n) => r matches Ok(q) && gave_count(q, n),
                    Err(e) => r matches Err(ExecutorError::Backend(e2)) && e2 == e,
                }
            },
    }
}

/// Whether `b` and `r` are what a FORGET step does to `a`: the records
/// satisfying the predicate go, and their number is the result.
pub open spec fn forget_outcome(a: Adb, b: Adb, st: StepPlan, r: Result<QueryResult, ExecutorError>) -> bool {
    &&& r matches Ok(q)
    &&& q.success
    &&& q.data matches ResultSet::Count { count }
    &&& forgot(a, b, st.memory_type, st.predicate, count)
}

/// The link store after storing link `l` under its key.
pub open spec fn put_link(s: Seq<LinkView>, l: LinkView) -> Seq<LinkView> {
    match id_index(s, l.id) {
        Some(i) => s.update(i, l),
        None => s.push(l),
    }
}

/// The link store after storing links in turn.
pub open spec fn put_links(s: Seq<LinkView>, ls: Seq<LinkView>) -> Seq<LinkView>
    decreases ls.len(),
{
    if ls.len() == 0 {
        s
    } else {
        put_link(put_links(s, ls.drop_last()), ls.last())
    }
}

/// Whether link `l` is a new link from `(from_type, from_id)` to
/// `(to_type, to_id)` of type `k` with weight `w` (clamped to [0, 1]).
pub open spec fn new_link(
    l: LinkView,
    from_type: MemoryType,
    from_id: Seq<char>,
    to_type: MemoryType,
    to_id: Seq<char>,
    k: Seq<char>,
    w: u32,
) -> bool {
    &&& l.from_type == from_type
    &&& l.from_id == from_id
    &&& l.to_type == to_type
    &&& l.to_id == to_id
    &&& l.link_type == k
    &&& l.weight == crate::float::f32_unit_clamp(w)
    &&& l.updated_at == l.created_at
}

/// Whether `ls[i][j]` is a new link from `sources[i]` to `targets[j]`.
pub open spec fn links_made(
    ls: Seq<Seq<LinkView>>,
    sources: Seq<RecordView>,
    from_type: MemoryType,
    targets: Seq<RecordView>,
    to_type: MemoryType,
    k: Seq<char>,
    w: u32,
) -> bool {
    &&& ls.len() == sources.len()
    &&& forall|i: int| 0 <= i < ls.len() ==> (#[trigger] ls[i]).len() == targets.len()
    &&& forall|i: int, j: int|
        0 <= i < sources.len() && 0 <= j < targets.len() ==> new_link(
            #[trigger] ls[i][j],
            from_type,
            sources[i].id,
            to_type,
            targets[j].id,
            k,
            w,
        )
}

/// `n`, or the largest `u64` when it is larger.
pub open spec fn saturated(n: int) -> u64 {
    if n <= u64::MAX {
        n as u64
    } else {
        u64::MAX
    }
}

/// Whether `b` is `a` with only its links changed.
pub open spec fn only_links_changed(a: Adb, b: Adb) -> bool {
    &&& b.working_backend() == a.working_backend()
    &&& b.tools_backend() == a.tools_backend()
    &&& b.procedural_backend() == a.procedural_backend()
    &&& b.semantic_backend() == a.semantic_backend()
    &&& b.episodic_backend() == a.episodic_backend()
    &&& b.settings() == a.settings()
}

/// Whether `b` and `r` are what linking the records the step's predicate
/// looks up to those the link fields' predicate looks up (with modifiers
/// `m`) does to `a` at instant `now`.
pub open spec fn links_outcome(
    a: Adb,
    b: Adb,
    st: StepPlan,
    f: LinkFields,
    m: Modifiers,
    now: Timestamp,
    r: Result<QueryResult, ExecutorError>,
) -> bool {
    let sources = adb_lookup(a, st.memory_type, st.predicate, m, now);
    let targets = adb_lookup(a, f.to_type, f.to_predicate, m, now);
    if sources.len() == 0 {
        &&& b == a
        &&& r matches Err(ExecutorError::LinkValidation(msg))
        &&& msg@ == "No source records found in "@ + memory_type_debug(st.memory_type) + " matching predicate"@
    } else if targets.len() == 0 {
        &&& b == a
        &&& r matches Err(ExecutorError::LinkValidation(msg))
        &&& msg@ == "No target records found in "@ + memory_type_debug(f.to_type) + " matching predicate"@
    } else {
        exists|ls: Seq<Seq<LinkView>>|
            {
                &&& #[trigger] links_made(ls, sources, st.memory_type, targets, f.to_type, f.link_type@, f.weight)
                &&& b.link_backend()@.links == put_links(a.link_backend()@.links, ls.flatten())
                &&& only_links_changed(a, b)
                &&& r matches Ok(q)
                &&& gave_count(q, saturated((sources.len() * targets.len()) as int))
            }
    }
}

/// Whether `b` and `r` are what a LINK step does to `a` at instant `now`
/// (target values read with `text`): it needs data (see
/// `link_fields_read`), source records (those the step's predicate looks
/// up) and target records (those the data's conditions look up), and
/// links every source to every target, in order; the result is the number
/// of links made.
pub open spec fn link_outcome<T: Fn(Json) -> String>(
    a: Adb,
    b: Adb,
    st: StepPlan,
    text: T,
    now: Timestamp,
    r: Result<QueryResult, ExecutorError>,
) -> bool {
    match st.data {
        None => missing(r, "link data"@) && b == a,
        Some(d) => exists|lf: Result<LinkFields, ExecutorError>|
            {
                &&& #[trigger] link_fields_read(text, d@, lf)
                &&& match lf {
                    Err(e) => r matches Err(e2) && e2 == e && b == a,
                    Ok(f) => exists|m: Modifiers| #[trigger] no_modifiers(m) && links_outcome(a, b, st, f, m, now, r),
                }
            },
    }
}

/// Whether `b` and `r` are what running step `st` does to `a` at instant
/// `now`.
pub open spec fn step_outcome<P, W, A, T>(
    a: Adb,
    b: Adb,
    st: StepPlan,
    o: Outside<P, W, A, T>,
    now: Timestamp,
    r: Result<QueryResult, ExecutorError>,
) -> bool where
    P: Fn(String) -> Option<u64>,
    W: Fn(u32, u32) -> u32,
    A: Fn(AggregateFuncType, Vec<u64>) -> u64,
    T: Fn(Json) -> String,
 {
    match st.operation {
        Operation::Scan => r matches Ok(q) && gave_records(q, scan_records(a, st.modifiers, now)) && b == a,
        Operation::Recall => r matches Ok(q) && recall_outcome(a, st, o, now, q) && b == a,
        Operation::Lookup => r matches Ok(q) && lookup_outcome(a, st, now, q) && b == a,
        Operation::Load => r matches Ok(q) && load_outcome(a, st, o.weigh, now, q) && b == a,
        Operation::Store => store_outcome(a, b, st, o.parse, now, r),
        Operation::Update => update_outcome(a, b, st, o.parse, now, r),
        Operation::Forget => forget_outcome(a, b, st, r),
        Operation::Link => link_outcome(a, b, st, o.text, now, r),
    }
}

/// Every memory kind, from the fastest to the slowest.
pub open spec fn all_types() -> Seq<MemoryType> {
    seq![MemoryType::Working, MemoryType::Tools, MemoryType::Procedural, MemoryType::Semantic, MemoryType::Episodic]
}

/// The value of a REFLECT source result: the kind's `Debug` name and the
/// records.
pub open spec fn source_view(s: SourceResult) -> (Seq<char>, Seq<RecordView>) {
    (s.memory_type@, record_views(s.records@))
}

/// The sum of counts.
pub open spec fn sum_of(s: Seq<u64>) -> int
    decreases s.len(),
{
    if s.len() == 0 {
        0
    } else {
        sum_of(s.drop_last()) + s.last()
    }
}

/// A sum of counts is never negative.
pub proof fn lemma_sum_nonneg(s: Seq<u64>)
    ensures
        sum_of(s) >= 0,
    decreases s.len(),
{
    if s.len() > 0 {
        lemma_sum_nonneg(s.drop_last());
    }
}

/// Whether `mids` are the databases and `outs` the outcomes of updating
/// every kind in turn with `d` (stopping at the first failure), from `a`
/// to `b`, with result `r`.
pub open spec fn updates_ran<F: Fn(String) -> Option<u64>>(
    a: Adb,
    b: Adb,
    fp: FanOutPlan,
    d: Json,
    parse: F,
    now: Timestamp,
    mids: Seq<Adb>,
    outs: Seq<Result<u64, AdbError>>,
    r: Result<QueryResult, ExecutorError>,
) -> bool {
                let n = outs.len() as int;
                &&& 1 <= n <= 5
                &&& mids.len() == n + 1
                &&& mids[0] == a
                &&& mids[n] == b
                &&& forall|i: int|
                    0 <= i < n ==> #[trigger] update_done(
                        mids[i],
                        mids[i + 1],
                        all_types()[i],
                        fp.predicate,
                        d@,
                        parse,
                        now,
                        outs[i],
                    )
                &&& forall|i: int| 0 <= i < n - 1 ==> (#[trigger] outs[i]) is Ok
                &&& match outs[n - 1] {
                    Err(e) => r matches Err(ExecutorError::Backend(e2)) && e2 == e,
                    Ok(_) => r matches Ok(q) && gave_count(
                        q,
                        saturated(sum_of(outs.map_values(|x: Result<u64, AdbError>| x->Ok_0))),
                    ) && n == 5,
                }
}

/// Whether `b` and `r` are what a fan-out does to `a` at instant `now`:
/// RECALL recalls from every kind in turn (one source result per kind);
/// FORGET forgets from every kind in turn and UPDATE updates every kind in
/// turn (stopping at the first failure), counting the records touched;
/// other operations are not run on every kind.
pub open spec fn fanout_outcome<P, W, A, T>(
    a: Adb,
    b: Adb,
    fp: FanOutPlan,
    o: Outside<P, W, A, T>,
    now: Timestamp,
    r: Result<QueryResult, ExecutorError>,
) -> bool where
    P: Fn(String) -> Option<u64>,
    W: Fn(u32, u32) -> u32,
    A: Fn(AggregateFuncType, Vec<u64>) -> u64,
    T: Fn(Json) -> String,
 {
    match fp.operation {
        Operation::Recall => {
            &&& b == a
            &&& r matches Ok(q)
            &&& q.success
            &&& q.data matches ResultSet::Reflect { sources, links }
            &&& links@.len() == 0
            &&& sources@.map_values(|s: SourceResult| source_view(s)) == all_types().map_values(
                |t: MemoryType| (memory_type_debug(t), adb_recall(a, t, fp.predicate, fp.modifiers, now)),
            )
        },
        Operation::Forget => exists|mids: Seq<Adb>, counts: Seq<u64>|
            {
                &&& mids.len() == 6
                &&& counts.len() == 5
                &&& mids[0] == a
                &&& mids[5] == b
                &&& forall|i: int| 0 <= i < 5 ==> #[trigger] forgot(mids[i], mids[i + 1], all_types()[i], fp.predicate, counts[i])
                &&& r matches Ok(q)
                &&& gave_count(q, saturated(sum_of(counts)))
            },
        Operation::Update => match fp.data {
            None => r matches Ok(q) && gave_count(q, 0) && b == a,
            Some(d) => exists|mids: Seq<Adb>, outs: Seq<Result<u64, AdbError>>|
                #[trigger] updates_ran(a, b, fp, d, o.parse, now, mids, outs, r),
        },
        _ => r matches Err(ExecutorError::UnsupportedOperation(m)) && m@ == crate::plan::operation_name(fp.operation)
            + " FROM ALL"@ && b == a,
    }
}

/// The values of source results.
pub open spec fn source_views(v: Seq<SourceResult>) -> Seq<(Seq<char>, Seq<RecordView>)> {
    v.map_values(|s: SourceResult| source_view(s))
}

/// Links grouped by the kind of record they lead to, kinds in the order
/// of `all_types`, links of a kind in their order.
pub open spec fn grouped_by_target(links: Seq<LinkView>) -> Seq<LinkView> {
    all_types().map_values(|t: MemoryType| links.filter(|l: LinkView| l.to_type == t)).flatten()
}

/// The links followed from records (of type `k`, when given): record by
/// record, each record's links grouped by target kind.
pub open spec fn followed_links(a: Adb, s: Seq<RecordView>, k: Option<Seq<char>>) -> Seq<LinkView> {
    s.map_values(|r: RecordView| grouped_by_target(links_from(a.link_backend()@.links, r.memory_type, r.id, k))).flatten()
}

/// The source results looking up link targets gives: one for each link
/// whose lookup found records (`parts`), named by the target kind's
/// `Debug` name, in order.
pub open spec fn found_sources(links: Seq<LinkView>, parts: Seq<Seq<RecordView>>) -> Seq<(Seq<char>, Seq<RecordView>)>
    decreases links.len(),
{
    if links.len() == 0 || parts.len() != links.len() {
        Seq::empty()
    } else {
        let rest = found_sources(links.drop_last(), parts.drop_last());
        if parts.last().len() > 0 {
            rest.push((memory_type_debug(links.last().to_type), parts.last()))
        } else {
            rest
        }
    }
}

/// What looking up targets gives is what the first links give, then what
/// the others give.
pub proof fn lemma_found_sources_concat(
    l1: Seq<LinkView>,
    p1: Seq<Seq<RecordView>>,
    l2: Seq<LinkView>,
    p2: Seq<Seq<RecordView>>,
)
    requires
        l1.len() == p1.len(),
        l2.len() == p2.len(),
    ensures
        found_sources(l1 + l2, p1 + p2) == found_sources(l1, p1) + found_sources(l2, p2),
    decreases l2.len(),
{
    if l2.len() == 0 {
        assert(l1 + l2 =~= l1);
        assert(p1 + p2 =~= p1);
        assert(found_sources(l1, p1) + found_sources(l2, p2) =~= found_sources(l1, p1));
    } else {
        lemma_found_sources_concat(l1, p1, l2.drop_last(), p2.drop_last());
        assert((l1 + l2).drop_last() =~= l1 + l2.drop_last());
        assert((p1 + p2).drop_last() =~= p1 + p2.drop_last());
        let x = found_sources(l1, p1);
        let y = found_sources(l2.drop_last(), p2.drop_last());
        if p2.last().len() > 0 {
            assert(x + y.push((memory_type_debug(l2.last().to_type), p2.last())) =~= (x + y).push(
                (memory_type_debug(l2.last().to_type), p2.last()),
            ));
        }
    }
}

/// Looking up the targets of two lists of links looks up those of their
/// concatenation.
pub proof fn lemma_targets_concat(
    a: Adb,
    l1: Seq<LinkView>,
    p1: Seq<Seq<RecordView>>,
    l2: Seq<LinkView>,
    p2: Seq<Seq<RecordView>>,
    now: Timestamp,
)
    requires
        looked_up_targets(a, l1, now, p1),
        looked_up_targets(a, l2, now, p2),
    ensures
        looked_up_targets(a, l1 + l2, now, p1 + p2),
{
    assert forall|i: int| 0 <= i < (l1 + l2).len() implies #[trigger] target_found(a, (l1 + l2)[i], now, (p1 + p2)[i]) by {
        if i < l1.len() {
            assert(target_found(a, l1[i], now, p1[i]));
        } else {
            assert(target_found(a, l2[i - l1.len()], now, p2[i - l1.len()]));
        }
    }
}

/// The source results of a REFLECT's sources at instant `now`: one per
/// source, named by its kind's `Debug` name, with the records recalled.
pub open spec fn reflect_sources(a: Adb, rp: ReflectPlan, now: Timestamp) -> Seq<(Seq<char>, Seq<RecordView>)> {
    rp.sources@.map_values(
        |s: ReflectSourcePlan|
            (memory_type_debug(s.memory_type), adb_recall(a, s.memory_type, s.predicate, s.modifiers, now)),
    )
}

/// The records of source results, in order.
pub open spec fn source_records(srcs: Seq<(Seq<char>, Seq<RecordView>)>) -> Seq<RecordView> {
    srcs.map_values(|x: (Seq<char>, Seq<RecordView>)| x.1).flatten()
}

/// Whether `sources` and `links` are what a REFLECT's sources and link
/// options give at instant `now`: following links gives the links of the
/// records found and, when some of them lead to records, those records in
/// place of the sources' (see `found_sources`); asking for links gives
/// the links; otherwise there are no links.
pub open spec fn reflected(
    a: Adb,
    rp: ReflectPlan,
    now: Timestamp,
    sources: Seq<(Seq<char>, Seq<RecordView>)>,
    links: Seq<LinkView>,
) -> bool {
    let srcs = reflect_sources(a, rp, now);
    let recs = source_records(srcs);
    match rp.link_options {
        Some(lo) => {
            let k = opt_view(lo.link_type);
            if lo.follow {
                &&& links == links_of(a, recs, k)
                &&& exists|parts: Seq<Seq<RecordView>>|
                    {
                        let found = found_sources(followed_links(a, recs, k), parts);
                        &&& #[trigger] looked_up_targets(a, followed_links(a, recs, k), now, parts)
                        &&& sources == if found.len() > 0 {
                            found
                        } else {
                            srcs
                        }
                    }
            } else if lo.with_links {
                sources == srcs && links == links_of(a, recs, k)
            } else {
                sources == srcs && links.len() == 0
            }
        },
        None => sources == srcs && links.len() == 0,
    }
}

/// Whether `r` is a successful REFLECT result with the given source
/// results and links.
pub open spec fn reflect_gave(r: Result<QueryResult, ExecutorError>, sources: Seq<(Seq<char>, Seq<RecordView>)>, links: Seq<LinkView>) -> bool {
    &&& r matches Ok(q)
    &&& q.success
    &&& q.data matches ResultSet::Reflect { sources: ss, links: ls }
    &&& source_views(ss@) == sources
    &&& link_views(ls@) == links
}

/// Whether `b` and `r` are what a REFLECT does to `a` at instant `now`:
/// its sources and links (see `reflected`), after running its follow-up
/// step, whose failure is the REFLECT's.
pub open spec fn reflect_outcome<P, W, A, T>(
    a: Adb,
    b: Adb,
    rp: ReflectPlan,
    o: Outside<P, W, A, T>,
    now: Timestamp,
    r: Result<QueryResult, ExecutorError>,
) -> bool where
    P: Fn(String) -> Option<u64>,
    W: Fn(u32, u32) -> u32,
    A: Fn(AggregateFuncType, Vec<u64>) -> u64,
    T: Fn(Json) -> String,
 {
    exists|sources: Seq<(Seq<char>, Seq<RecordView>)>, links: Seq<LinkView>|
        {
            &&& #[trigger] reflected(a, rp, now, sources, links)
            &&& match rp.then_step {
                None => b == a && reflect_gave(r, sources, links),
                Some(st) => exists|x: Result<QueryResult, ExecutorError>|
                    {
                        &&& #[trigger] step_outcome(a, b, *st, o, now, x)
                        &&& match x {
                            Err(e) => r matches Err(e2) && e2 == e,
                            Ok(_) => reflect_gave(r, sources, links),
                        }
                    },
            }
        }
}

/// The payload of the first record of a result, for binding variables:
/// the first record of a list of records, or the first record of the
/// first source of a REFLECT.
pub open spec fn first_record_data(d: ResultSet) -> Option<JsonView> {
    match d {
        ResultSet::Records { records } => if records@.len() > 0 {
            Some(records@[0].data@)
        } else {
            None
        },
        ResultSet::Reflect { sources, links } => if sources@.len() > 0 && sources@[0].records@.len() > 0 {
            Some(sources@[0].records@[0].data@)
        } else {
            None
        },
        _ => None,
    }
}

/// Whether `after` is `before` with the members of the first record of a
/// result bound, when its payload is an object (see `bind_members`).
pub open spec fn extracted<T: Fn(Json) -> String>(
    text: T,
    before: Seq<(Seq<char>, ValueView)>,
    d: ResultSet,
    after: Seq<(Seq<char>, ValueView)>,
) -> bool {
    match first_record_data(d) {
        Some(JsonView::Object(ms)) => exists|values: Seq<ValueView>|
            #[trigger] member_values(text, ms, values) && after == bound_all(before, member_names(ms), values),
        _ => after == before,
    }
}

/// Whether `b` and `r` are what a pipeline stage does to `a` at instant
/// `now` with bindings `bind`: a step runs with the variables of its
/// predicate bound.
pub open spec fn stage_outcome<P, W, A, T>(
    a: Adb,
    b: Adb,
    stage: PipelineStage,
    bind: Seq<(Seq<char>, ValueView)>,
    o: Outside<P, W, A, T>,
    now: Timestamp,
    r: Result<QueryResult, ExecutorError>,
) -> bool where
    P: Fn(String) -> Option<u64>,
    W: Fn(u32, u32) -> u32,
    A: Fn(AggregateFuncType, Vec<u64>) -> u64,
    T: Fn(Json) -> String,
 {
    match stage {
        PipelineStage::Step(st) => exists|q: Predicate|
            q@ == bound_predicate(bind, st.predicate@) && #[trigger] step_outcome(
                a,
                b,
                StepPlan { predicate: q, ..st },
                o,
                now,
                r,
            ),
        PipelineStage::Reflect(rp) => reflect_outcome(a, b, rp, o, now, r),
    }
}

/// Whether `mids` are the databases, `binds` the bindings and `outs` the
/// outcomes of running a pipeline's stages in turn from `a` to `b`,
/// stopping at the first failure, with result `r`: each stage's
/// variables are bound from the first record of the results before it;
/// a failure is reported with the stage's index and message.
pub open spec fn pipeline_ran<P, W, A, T>(
    a: Adb,
    b: Adb,
    pp: PipelinePlan,
    o: Outside<P, W, A, T>,
    now: Timestamp,
    mids: Seq<Adb>,
    binds: Seq<Seq<(Seq<char>, ValueView)>>,
    outs: Seq<Result<QueryResult, ExecutorError>>,
    r: Result<QueryResult, ExecutorError>,
) -> bool where
    P: Fn(String) -> Option<u64>,
    W: Fn(u32, u32) -> u32,
    A: Fn(AggregateFuncType, Vec<u64>) -> u64,
    T: Fn(Json) -> String,
 {
    let n = outs.len() as int;
    &&& n <= pp.stages@.len()
    &&& mids.len() == n + 1
    &&& binds.len() == n + 1
    &&& mids[0] == a
    &&& mids[n] == b
    &&& binds[0].len() == 0
    &&& forall|i: int|
        0 <= i < n ==> #[trigger] stage_outcome(mids[i], mids[i + 1], pp.stages@[i], binds[i], o, now, outs[i])
    &&& forall|i: int| 0 <= i < n - 1 ==> (#[trigger] outs[i]) is Ok
    &&& forall|i: int|
        0 <= i < n && outs[i] is Ok ==> extracted(o.text, binds[i], (#[trigger] outs[i])->Ok_0.data, binds[i + 1])
    &&& if n > 0 && outs[n - 1] is Err {
        r matches Err(ExecutorError::PipelineError { step, message }) && step == n - 1 && message@ == executor_error_text(
            outs[n - 1]->Err_0,
        )
    } else {
        &&& n == pp.stages@.len()
        &&& r matches Ok(q)
        &&& q.data matches ResultSet::Pipeline { steps }
        &&& steps@ == outs.map_values(|x: Result<QueryResult, ExecutorError>| x->Ok_0)
    }
}

/// Whether `b` and `r` are what a pipeline does to `a` at instant `now`
/// (see `pipeline_ran`).
pub open spec fn pipeline_outcome<P, W, A, T>(
    a: Adb,
    b: Adb,
    pp: PipelinePlan,
    o: Outside<P, W, A, T>,
    now: Timestamp,
    r: Result<QueryResult, ExecutorError>,
) -> bool where
    P: Fn(String) -> Option<u64>,
    W: Fn(u32, u32) -> u32,
    A: Fn(AggregateFuncType, Vec<u64>) -> u64,
    T: Fn(Json) -> String,
 {
    exists|
        mids: Seq<Adb>,
        binds: Seq<Seq<(Seq<char>, ValueView)>>,
        outs: Seq<Result<QueryResult, ExecutorError>>,
    | #[trigger] pipeline_ran(a, b, pp, o, now, mids, binds, outs, r)
}

/// Whether `b` and `r` are what running a plan does to `a` at instant
/// `now`.
pub open spec fn plan_outcome<P, W, A, T>(
    a: Adb,
    b: Adb,
    plan: ExecutionPlan,
    o: Outside<P, W, A, T>,
    now: Timestamp,
    r: Result<QueryResult, ExecutorError>,
) -> bool where
    P: Fn(String) -> Option<u64>,
    W: Fn(u32, u32) -> u32,
    A: Fn(AggregateFuncType, Vec<u64>) -> u64,
    T: Fn(Json) -> String,
 {
    match plan {
        ExecutionPlan::Single(st) => step_outcome(a, b, st, o, now, r),
        ExecutionPlan::Pipeline(pp) => pipeline_outcome(a, b, pp, o, now, r),
        ExecutionPlan::Reflect(rp) => reflect_outcome(a, b, rp, o, now, r),
        ExecutionPlan::FanOut(fp) => fanout_outcome(a, b, fp, o, now, r),
    }
}

/// A RECALL of one memory kind with aggregates, planned and run (see
/// `Executor::execute_statement`), leaves the database as it was and
/// succeeds with the aggregation document of the recalled records (see
/// `aggregated`), or with null when the HAVING conditions do not hold of it.
pub proof fn lemma_recall_aggregates<P, W, A, T>(
    pl: Planner,
    x: RecallStmt,
    plan: ExecutionPlan,
    a: Adb,
    b: Adb,
    o: Outside<P, W, A, T>,
    now: Timestamp,
    r: Result<QueryResult, ExecutorError>,
) where
    P: Fn(String) -> Option<u64>,
    W: Fn(u32, u32) -> u32,
    A: Fn(AggregateFuncType, Vec<u64>) -> u64,
    T: Fn(Json) -> String,

    requires
        x.memory_type != AstMemoryType::All,
        x.modifiers.aggregate is Some,
        planned(pl, Statement::Recall(x), plan),
        plan_outcome(a, b, plan, o, now, r),
    ensures
        b == a,
        r matches Ok(q) && q.success,
        exists|j: Json|
            {
                &&& #[trigger] aggregated(
                    o.parse,
                    o.reduce,
                    adb_recall(a, target_type(x.memory_type).unwrap(), x.predicate, x.modifiers, now),
                    x.modifiers.aggregate.unwrap()@,
                    j@,
                )
                &&& r->Ok_0.data == ResultSet::Aggregation {
                    values: if (match x.modifiers.having {
                        Some(cs) => conditions_hold(cs@, j@),
                        None => true,
                    }) {
                        j
                    } else {
                        Json::Null
                    },
                }
            },
{
}

// ---------------------------------------------------------------------------
// The executor
// ---------------------------------------------------------------------------

/// Runs plans against a memory database.
pub struct Executor {
    adb: Adb,
    planner: Planner,
}

/// Whole milliseconds from `start` to `end`: zero when `end` is not later,
/// `u64::MAX` when the count does not fit.
pub open spec fn millis_between(start: Timestamp, end: Timestamp) -> u64 {
    let ns = end.total() - start.total();
    if ns <= 0 {
        0
    } else if ns / 1_000_000 > u64::MAX {
        u64::MAX
    } else {
        (ns / 1_000_000) as u64
    }
}

/// Milliseconds since `start` (none when the clock went back), read from
/// the clock now.
fn elapsed_ms(start: &Timestamp) -> (r: u64)
    ensures
        exists|end: Timestamp| end.wf() && r == #[trigger] millis_between(*start, end),
{
    let end = clock_now();
    let ns: i128 = (end.secs as i128 - start.secs as i128) * 1_000_000_000 + (end.nanos as i128 - start.nanos as i128);
    assert(ns == end.total() - start.total()) by (nonlinear_arith)
        requires
            ns == (end.secs as i128 - start.secs as i128) * 1_000_000_000 + (end.nanos as i128 - start.nanos as i128),
    ;
    let r: u64 = if ns <= 0 {
        0
    } else if ns / 1_000_000 > u64::MAX as i128 {
        u64::MAX
    } else {
        (ns / 1_000_000) as u64
    };
    assert(r == millis_between(*start, end));
    r
}

/// The payload of the first record of a result (see `first_record_data`).
fn first_data(q: &QueryResult) -> (r: Option<&Json>)
    ensures
        match first_record_data(q.data) {
            Some(d) => r matches Some(x) && x@ == d,
            None => r is None,
        },
{
    match &q.data {
        ResultSet::Records { records } => if records.len() > 0 {
            Some(&records[0].data)
        } else {
            None
        },
        ResultSet::Reflect { sources, links } => if sources.len() > 0 && sources[0].records.len() > 0 {
            Some(&sources[0].records[0].data)
        } else {
            None
        },
        _ => None,
    }
}

/// The bindings with the members of the first record of a result bound
/// (see `extracted`).
fn extract_bindings<T: Fn(Json) -> String>(result: &QueryResult, bindings: Vec<(String, Value)>, text: &T) -> (r: Vec<
    (String, Value),
>)
    requires
        bindings_wf(binding_views(bindings@)),
        forall|x: Json| call_requires(*text, (x,)),
    ensures
        bindings_wf(binding_views(r@)),
        extracted(*text, binding_views(bindings@), result.data, binding_views(r@)),
{
    match first_data(result) {
        Some(d) => bind_members(bindings, d, text),
        None => bindings,
    }
}

/// Copies of links grouped by the kind of record they lead to (see
/// `grouped_by_target`).
fn grouped_links(links: &Vec<Link>) -> (r: Vec<Link>)
    ensures
        link_views(r@) == grouped_by_target(link_views(links@)),
{
    let ghost lv = link_views(links@);
    let ghost g = |t: MemoryType| lv.filter(|l: LinkView| l.to_type == t);
    let kinds = MemoryType::all();
    let mut out: Vec<Link> = Vec::new();
    proof {
        assert(all_types().take(0).map_values(g) =~= Seq::<Seq<LinkView>>::empty());
        assert(Seq::<Seq<LinkView>>::empty().flatten() =~= Seq::<LinkView>::empty());
        assert(link_views(out@) =~= Seq::<LinkView>::empty());
    }
    let mut ti: usize = 0;
    while ti < kinds.len()
        invariant
            ti <= kinds@.len(),
            kinds@ == all_types(),
            lv == link_views(links@),
            g == (|t: MemoryType| lv.filter(|l: LinkView| l.to_type == t)),
            link_views(out@) == all_types().take(ti as int).map_values(g).flatten(),
        decreases kinds@.len() - ti,
    {
        let t = kinds[ti];
        let ghost pre = link_views(out@);
        let ghost p = |l: LinkView| l.to_type == t;
        let mut m: usize = 0;
        proof {
            assert(lv.take(0).filter(p) =~= Seq::<LinkView>::empty());
            assert(pre + lv.take(0).filter(p) =~= pre);
        }
        while m < links.len()
            invariant
                m <= links@.len(),
                lv == link_views(links@),
                p == (|l: LinkView| l.to_type == t),
                link_views(out@) == pre + lv.take(m as int).filter(p),
            decreases links@.len() - m,
        {
            let ghost before = link_views(out@);
            proof {
                crate::seqs::lemma_filter_step(lv, p, m as int);
            }
            if links[m].to_type == t {
                out.push(links[m].copy());
                proof {
                    assert(link_views(out@) =~= before.push(lv[m as int]));
                }
            }
            m = m + 1;
        }
        proof {
            assert(lv.take(lv.len() as int) =~= lv);
            assert(all_types().take(ti + 1) =~= all_types().take(ti as int).push(t));
            assert(all_types().take(ti + 1).map_values(g) =~= all_types().take(ti as int).map_values(g).push(g(t)));
            all_types().take(ti as int).map_values(g).lemma_flatten_push(g(t));
            assert(g(t) == lv.filter(p));
        }
        ti = ti + 1;
    }
    proof {
        assert(all_types().take(5) =~= all_types());
    }
    out
}

impl Executor {
    /// The database.
    pub closed spec fn db(self) -> Adb {
        self.adb
    }

    /// The planner.
    pub closed spec fn plans(self) -> Planner {
        self.planner
    }

    /// An executor over a database, planning with default settings.
    pub fn new(adb: Adb) -> (r: Executor)
        ensures
            r.db() == adb,
            r.plans().scope() == Scope::Private,
            r.plans().namespace() is None,
    {
        Executor { adb, planner: Planner::new() }
    }

    /// The database.
    pub fn adb(&self) -> (r: &Adb)
        ensures
            *r == self.db(),
    {
        &self.adb
    }

    /// The database, to change.
    pub fn adb_mut(&mut self) -> (r: &mut Adb)
        ensures
            *r == old(self).db(),
            final(self).db() == *final(r),
            final(self).plans() == old(self).plans(),
    {
        &mut self.adb
    }

    /// Runs a SCAN step at instant `now`.
    fn execute_scan(&self, st: &StepPlan, now: Timestamp) -> (r: QueryResult)
        ensures
            gave_records(r, scan_records(self.db(), st.modifiers, now)),
    {
        let start = clock_now();
        let window = match &st.modifiers.window {
            Some(w) => Some(w),
            None => None,
        };
        assert((match window {
            Some(w) => Some(*w),
            None => None,
        }) == st.modifiers.window);
        let mut records = self.adb.scan_at(window, now);
        let ghost s = working_scan(self.db().working_backend()@.records, st.modifiers.window, now);
        assert(record_views(records@) == s);
        match st.modifiers.limit {
            Some(n) => {
                records.truncate(n);
                proof {
                    if n < s.len() {
                        assert(record_views(records@) =~= s.take(n as int));
                    } else {
                        assert(record_views(records@) =~= s);
                    }
                }
            },
            None => {},
        }
        QueryResult::records(records, elapsed_ms(&start))
    }

    /// Sets the links of each record (of type `k`, when given) as its
    /// payload member `links`.
    fn add_links_to(&self, records: &mut Vec<MemoryRecord>, k: Option<&str>)
        ensures
            record_views(final(records)@) == shown_with_links(self.db(), record_views(old(records)@), opt_str_view(k)),
    {
        let ghost s = record_views(records@);
        let ghost a = self.db();
        let mut i: usize = 0;
        while i < records.len()
            invariant
                i <= records@.len(),
                records@.len() == s.len(),
                s == record_views(old(records)@),
                a == self.db(),
                forall|j: int| i <= j < s.len() ==> (#[trigger] records@[j])@ == s[j],
                forall|j: int|
                    0 <= j < i ==> (#[trigger] records@[j])@ == shown_with_links(a, s, opt_str_view(k))[j],
            decreases records@.len() - i,
        {
            let links = self.adb.get_links_from(records[i].memory_type, records[i].id.as_str(), k);
            let mut rec = records.remove(i);
            add_links(&mut rec, &links);
            records.insert(i, rec);
            proof {
                assert forall|j: int| i < j < s.len() implies (#[trigger] records@[j])@ == s[j] by {}
            }
            i = i + 1;
        }
        assert(record_views(records@) =~= shown_with_links(a, s, opt_str_view(k)));
    }

    /// Sets the links asked for on each record (see `shown_with_links`).
    fn show_links(&self, records: &mut Vec<MemoryRecord>, w: &WithLinks)
        ensures
            record_views(final(records)@) == shown_with_links(self.db(), record_views(old(records)@), link_filter(*w)),
    {
        let k = match w {
            WithLinks::All => None,
            WithLinks::Type { link_type } => Some(link_type.as_str()),
        };
        assert(opt_str_view(k) == link_filter(*w));
        self.add_links_to(records, k);
    }

    /// Runs a LOOKUP step at instant `now`.
    fn execute_lookup(&self, st: &StepPlan, now: Timestamp) -> (r: QueryResult)
        ensures
            lookup_outcome(self.db(), *st, now, r),
    {
        let start = clock_now();
        let mut records = self.adb.lookup_with_modifiers_at(st.memory_type, &st.predicate, &st.modifiers, now);
        match &st.modifiers.with_links {
            Some(w) => self.show_links(&mut records, w),
            None => {},
        }
        QueryResult::records(records, elapsed_ms(&start))
    }

    /// The records the links of type `k` from `records` lead to, each
    /// looked up by key at instant `now`.
    fn follow_targets(&self, records: &Vec<MemoryRecord>, k: &str, now: Timestamp) -> (r: Vec<MemoryRecord>)
        ensures
            exists|parts: Seq<Seq<RecordView>>|
                #[trigger] looked_up_targets(self.db(), links_of(self.db(), record_views(records@), Some(k@)), now, parts)
                    && record_views(r@) == parts.flatten(),
    {
        broadcast use vstd::seq::Seq::lemma_flatten_push;
        proof {
            reveal_strlit("id");
        }
        let ghost a = self.db();
        let ghost s = record_views(records@);
        let ghost f = |r: RecordView| links_from(a.link_backend()@.links, r.memory_type, r.id, Some(k@));
        let mut out: Vec<MemoryRecord> = Vec::new();
        let ghost mut parts: Seq<Seq<RecordView>> = Seq::empty();
        proof {
            assert(s.take(0).map_values(f) =~= Seq::<Seq<LinkView>>::empty());
            assert(Seq::<Seq<LinkView>>::empty().flatten() =~= Seq::<LinkView>::empty());
            assert(Seq::<Seq<RecordView>>::empty().flatten() =~= Seq::<RecordView>::empty());
            assert(record_views(out@) =~= Seq::<RecordView>::empty());
        }
        let mut i: usize = 0;
        while i < records.len()
            invariant
                i <= records@.len(),
                s == record_views(records@),
                a == self.db(),
                f == (|r: RecordView| links_from(a.link_backend()@.links, r.memory_type, r.id, Some(k@))),
                record_views(out@) == parts.flatten(),
                looked_up_targets(a, s.take(i as int).map_values(f).flatten(), now, parts),
            decreases records@.len() - i,
        {
            let links = self.adb.get_links_from(records[i].memory_type, records[i].id.as_str(), Some(k));
            let ghost before = s.take(i as int).map_values(f).flatten();
            let ghost lv = crate::links::link_views(links@);
            assert(lv == f(s[i as int]));
            let mut j: usize = 0;
            proof {
                assert(before + lv.take(0) =~= before);
            }
            while j < links.len()
                invariant
                    j <= links@.len(),
                    lv == crate::links::link_views(links@),
                    a == self.db(),
                    record_views(out@) == parts.flatten(),
                    looked_up_targets(a, before + lv.take(j as int), now, parts),
                decreases links@.len() - j,
            {
                let q = Predicate::Key { field: owned("id"), value: Value::String(copy_string(&links[j].to_id)) };
                let m = Modifiers::default();
                let mut found = self.adb.lookup_with_modifiers_at(links[j].to_type, &q, &m, now);
                let ghost fv = record_views(found@);
                let ghost old_out = record_views(out@);
                out.append(&mut found);
                proof {
                    assert(record_views(out@) =~= old_out + fv);
                    let old_parts = parts;
                    let old_links = before + lv.take(j as int);
                    let new_links = before + lv.take(j + 1);
                    assert(new_links =~= old_links.push(lv[j as int]));
                    parts = parts.push(fv);
                    old_parts.lemma_flatten_push(fv);
                    assert(record_views(out@) == parts.flatten());
                    assert(q@ == id_key_view(lv[j as int].to_id));
                    assert(target_found(a, lv[j as int], now, fv));
                    assert forall|x: int| 0 <= x < new_links.len() implies #[trigger] target_found(a, new_links[x], now, parts[x]) by {
                        if x < old_links.len() {
                            assert(parts[x] == old_parts[x]);
                            assert(new_links[x] == old_links[x]);
                        } else {
                            assert(parts[x] == fv);
                            assert(new_links[x] == lv[j as int]);
                        }
                    }
                }
                j = j + 1;
            }
            proof {
                assert(lv.take(lv.len() as int) =~= lv);
                assert(s.take(i + 1).map_values(f) =~= s.take(i as int).map_values(f).push(f(s[i as int])));
                s.take(i as int).map_values(f).lemma_flatten_push(f(s[i as int]));
            }
            i = i + 1;
        }
        proof {
            assert(s.take(s.len() as int) =~= s);
            assert(s.map_values(f) =~= s.map_values(
                |r: RecordView| links_from(a.link_backend()@.links, r.memory_type, r.id, Some(k@)),
            ));
            assert(s.take(s.len() as int).map_values(f).flatten() == links_of(a, s, Some(k@)));
            assert(looked_up_targets(a, links_of(a, s, Some(k@)), now, parts));
        }
        out
    }

    /// Runs a RECALL step at instant `now` (see `recall_outcome`).
    fn execute_recall<P, W, A, T>(&self, st: &StepPlan, o: &Outside<P, W, A, T>, now: Timestamp) -> (r: QueryResult) where
        P: Fn(String) -> Option<u64>,
        W: Fn(u32, u32) -> u32,
        A: Fn(AggregateFuncType, Vec<u64>) -> u64,
        T: Fn(Json) -> String,

        requires
            outside_total(*o),
        ensures
            recall_outcome(self.db(), *st, *o, now, r),
    {
        let start = clock_now();
        let mut records = self.adb.recall_with_modifiers_at(st.memory_type, &st.predicate, &st.modifiers, now);
        match &st.modifiers.aggregate {
            Some(funcs) => {
                let j = self.adb.episodic().aggregate(&records, funcs, &o.parse, &o.reduce);
                let keep = match &st.modifiers.having {
                    Some(cs) => all_conditions_hold(cs, &j),
                    None => true,
                };
                let values = if keep {
                    j
                } else {
                    Json::Null
                };
                return QueryResult::aggregation(values, elapsed_ms(&start));
            },
            None => {},
        }
        match &st.modifiers.follow_links {
            Some(f) => {
                let targets = self.follow_targets(&records, f.link_type.as_str(), now);
                return QueryResult::records(targets, elapsed_ms(&start));
            },
            None => {},
        }
        match &st.modifiers.with_links {
            Some(w) => self.show_links(&mut records, w),
            None => {},
        }
        QueryResult::records(records, elapsed_ms(&start))
    }

    /// Runs a LOAD step at instant `now` (see `load_outcome`).
    fn execute_load<W: Fn(u32, u32) -> u32>(&self, st: &StepPlan, weigh: &W, now: Timestamp) -> (r: QueryResult)
        requires
            forall|a: u32, b: u32| call_requires(*weigh, (a, b)),
        ensures
            load_outcome(self.db(), *st, *weigh, now, r),
    {
        let start = clock_now();
        let limit = match st.modifiers.limit {
            Some(n) => n,
            None => 10,
        };
        let records = self.adb.load_at(&st.predicate, limit, weigh, now);
        QueryResult::records(records, elapsed_ms(&start))
    }

    /// Runs a STORE step at instant `now` (see `store_outcome`).
    fn execute_store<F: Fn(String) -> Option<u64>>(&mut self, st: &StepPlan, parse: &F, now: Timestamp) -> (r: Result<
        QueryResult,
        ExecutorError,
    >)
        requires
            forall|s: String| call_requires(*parse, (s,)),
        ensures
            store_outcome(old(self).db(), final(self).db(), *st, *parse, now, r),
            final(self).plans() == old(self).plans(),
    {
        proof {
            reveal_strlit("store data");
        }
        let start = clock_now();
        let data = match &st.data {
            Some(d) => d,
            None => return Err(ExecutorError::MissingData(owned("store data"))),
        };
        let f = match store_fields(data) {
            Ok(f) => f,
            Err(e) => return Err(e),
        };
        let ghost fv = f;
        let StoreFields { key, payload, scope, namespace, ttl } = f;
        let ns = match &namespace {
            Some(n) => Some(n.as_str()),
            None => None,
        };
        assert(opt_str_view(ns) == opt_view(namespace));
        let record = self.adb.store_with_options_at(st.memory_type, key.as_str(), payload, scope, ns, ttl, parse, now);
        let r = QueryResult::stored(record, elapsed_ms(&start));
        assert(store_fields_of(data@, fv));
        Ok(r)
    }

    /// Runs an UPDATE step at instant `now` (see `update_outcome`).
    fn execute_update<F: Fn(String) -> Option<u64>>(&mut self, st: &StepPlan, parse: &F, now: Timestamp) -> (r: Result<
        QueryResult,
        ExecutorError,
    >)
        requires
            forall|s: String| call_requires(*parse, (s,)),
        ensures
            update_outcome(old(self).db(), final(self).db(), *st, *parse, now, r),
            final(self).plans() == old(self).plans(),
    {
        proof {
            reveal_strlit("update data");
        }
        let start = clock_now();
        let data = match &st.data {
            Some(d) => d,
            None => return Err(ExecutorError::MissingData(owned("update data"))),
        };
        let x = self.adb.update_at(st.memory_type, &st.predicate, data, parse, now);
        let ghost xv = x;
        match x {
            Ok(n) => Ok(QueryResult::count(n, elapsed_ms(&start))),
            Err(e) => Err(ExecutorError::Backend(e)),
        }
    }

    /// Runs a FORGET step (see `forget_outcome`).
    fn execute_forget(&mut self, st: &StepPlan) -> (r: Result<QueryResult, ExecutorError>)
        ensures
            forget_outcome(old(self).db(), final(self).db(), *st, r),
            final(self).plans() == old(self).plans(),
    {
        let start = clock_now();
        let n = self.adb.forget(st.memory_type, &st.predicate);
        Ok(QueryResult::count(n, elapsed_ms(&start)))
    }

    /// Runs a LINK step at instant `now`, target values read with `text`
    /// (see `link_outcome`).
    fn execute_link<T: Fn(Json) -> String>(&mut self, st: &StepPlan, text: &T, now: Timestamp) -> (r: Result<
        QueryResult,
        ExecutorError,
    >)
        requires
            forall|x: Json| call_requires(*text, (x,)),
        ensures
            link_outcome(old(self).db(), final(self).db(), *st, *text, now, r),
            final(self).plans() == old(self).plans(),
    {
        proof {
            reveal_strlit("link data");
            reveal_strlit("No source records found in ");
            reveal_strlit("No target records found in ");
            reveal_strlit(" matching predicate");
        }
        let start = clock_now();
        let data = match &st.data {
            Some(d) => d,
            None => return Err(ExecutorError::MissingData(owned("link data"))),
        };
        let lf = link_fields(data, text);
        let ghost lfv = lf;
        let f = match lf {
            Ok(f) => f,
            Err(e) => {
                assert(link_fields_read(*text, data@, lfv));
                return Err(e);
            },
        };
        assert(link_fields_read(*text, data@, lfv));
        let m = Modifiers::default();
        let ghost a = self.db();
        let sources = self.adb.lookup_with_modifiers_at(st.memory_type, &st.predicate, &m, now);
        if sources.len() == 0 {
            let mut msg = owned("No source records found in ");
            msg.append(memory_type_debug_name(st.memory_type));
            msg.append(" matching predicate");
            let r = Err(ExecutorError::LinkValidation(msg));
            assert(links_outcome(a, self.db(), *st, f, m, now, r));
            return r;
        }
        let targets = self.adb.lookup_with_modifiers_at(f.to_type, &f.to_predicate, &m, now);
        if targets.len() == 0 {
            let mut msg = owned("No target records found in ");
            msg.append(memory_type_debug_name(f.to_type));
            msg.append(" matching predicate");
            let r = Err(ExecutorError::LinkValidation(msg));
            assert(links_outcome(a, self.db(), *st, f, m, now, r));
            return r;
        }
        let ghost sv = record_views(sources@);
        let ghost tv = record_views(targets@);
        let mut count: u64 = 0;
        let ghost mut rows: Seq<Seq<LinkView>> = Seq::empty();
        proof {
            assert(Seq::<Seq<LinkView>>::empty().flatten() =~= Seq::<LinkView>::empty());
        }
        let mut i: usize = 0;
        while i < sources.len()
            invariant
                i <= sources@.len(),
                sv == record_views(sources@),
                tv == record_views(targets@),
                rows.len() == i,
                forall|x: int| 0 <= x < i ==> (#[trigger] rows[x]).len() == tv.len(),
                forall|x: int, y: int|
                    0 <= x < i && 0 <= y < tv.len() ==> new_link(
                        #[trigger] rows[x][y],
                        st.memory_type,
                        sv[x].id,
                        f.to_type,
                        tv[y].id,
                        f.link_type@,
                        f.weight,
                    ),
                self.db().link_backend()@.links == put_links(a.link_backend()@.links, rows.flatten()),
                only_links_changed(a, self.db()),
                self.plans() == old(self).plans(),
                rows.flatten().len() == i * tv.len(),
                count == saturated(i * tv.len()),
            decreases sources@.len() - i,
        {
            let ghost mut row: Seq<LinkView> = Seq::empty();
            proof {
                assert(rows.flatten() + row =~= rows.flatten());
            }
            let mut j: usize = 0;
            while j < targets.len()
                invariant
                    i < sources@.len(),
                    j <= targets@.len(),
                    sv == record_views(sources@),
                    tv == record_views(targets@),
                    row.len() == j,
                    forall|y: int|
                        0 <= y < j ==> new_link(
                            #[trigger] row[y],
                            st.memory_type,
                            sv[i as int].id,
                            f.to_type,
                            tv[y].id,
                            f.link_type@,
                            f.weight,
                        ),
                    self.db().link_backend()@.links == put_links(a.link_backend()@.links, rows.flatten() + row),
                    only_links_changed(a, self.db()),
                    self.plans() == old(self).plans(),
                    rows.flatten().len() == i * tv.len(),
                    count == saturated(i * tv.len() + j),
                decreases targets@.len() - j,
            {
                let l = self.adb.link(
                    st.memory_type,
                    sources[i].id.as_str(),
                    f.to_type,
                    targets[j].id.as_str(),
                    f.link_type.as_str(),
                    f.weight,
                );
                proof {
                    let before = rows.flatten() + row;
                    assert(before.push(l@).drop_last() =~= before);
                    assert(put_links(a.link_backend()@.links, before.push(l@)) == put_link(
                        put_links(a.link_backend()@.links, before),
                        l@,
                    ));
                    row = row.push(l@);
                    assert(rows.flatten() + row =~= before.push(l@));
                }
                count = count.saturating_add(1);
                j = j + 1;
            }
            proof {
                rows.lemma_flatten_push(row);
                let old_rows = rows;
                rows = rows.push(row);
                assert forall|x: int, y: int|
                    0 <= x < i + 1 && 0 <= y < tv.len() implies new_link(
                    #[trigger] rows[x][y],
                    st.memory_type,
                    sv[x].id,
                    f.to_type,
                    tv[y].id,
                    f.link_type@,
                    f.weight,
                ) by {
                    if x < i {
                        assert(rows[x] == old_rows[x]);
                    } else {
                        assert(rows[x] == row);
                    }
                }
                assert((i + 1) * tv.len() == i * tv.len() + tv.len()) by (nonlinear_arith);
            }
            i = i + 1;
        }
        let r = Ok(QueryResult::count(count, elapsed_ms(&start)));
        proof {
            assert(links_made(rows, sv, st.memory_type, tv, f.to_type, f.link_type@, f.weight));
            assert(links_outcome(a, self.db(), *st, f, m, now, r));
        }
        r
    }

    /// Runs a step at instant `now` (see `step_outcome`).
    fn execute_step<P, W, A, T>(&mut self, st: &StepPlan, o: &Outside<P, W, A, T>, now: Timestamp) -> (r: Result<
        QueryResult,
        ExecutorError,
    >) where
        P: Fn(String) -> Option<u64>,
        W: Fn(u32, u32) -> u32,
        A: Fn(AggregateFuncType, Vec<u64>) -> u64,
        T: Fn(Json) -> String,

        requires
            outside_total(*o),
        ensures
            step_outcome(old(self).db(), final(self).db(), *st, *o, now, r),
            final(self).plans() == old(self).plans(),
    {
        match st.operation {
            Operation::Scan => Ok(self.execute_scan(st, now)),
            Operation::Recall => Ok(self.execute_recall(st, o, now)),
            Operation::Lookup => Ok(self.execute_lookup(st, now)),
            Operation::Load => Ok(self.execute_load(st, &o.weigh, now)),
            Operation::Store => self.execute_store(st, &o.parse, now),
            Operation::Update => self.execute_update(st, &o.parse, now),
            Operation::Forget => self.execute_forget(st),
            Operation::Link => self.execute_link(st, &o.text, now),
        }
    }

    /// Runs a fan-out at instant `now` (see `fanout_outcome`).
    fn execute_fanout<P, W, A, T>(&mut self, fp: &FanOutPlan, o: &Outside<P, W, A, T>, now: Timestamp) -> (r: Result<
        QueryResult,
        ExecutorError,
    >) where
        P: Fn(String) -> Option<u64>,
        W: Fn(u32, u32) -> u32,
        A: Fn(AggregateFuncType, Vec<u64>) -> u64,
        T: Fn(Json) -> String,

        requires
            outside_total(*o),
        ensures
            fanout_outcome(old(self).db(), final(self).db(), *fp, *o, now, r),
            final(self).plans() == old(self).plans(),
    {
        proof {
            reveal_strlit(" FROM ALL");
        }
        let start = clock_now();
        let kinds = MemoryType::all();
        let ghost a = self.db();
        match fp.operation {
            Operation::Recall => {
                let mut sources: Vec<SourceResult> = Vec::new();
                let mut i: usize = 0;
                while i < kinds.len()
                    invariant
                        i <= kinds@.len(),
                        kinds@ == all_types(),
                        a == old(self).db(),
                        a == self.db(),
                        self.plans() == old(self).plans(),
                        sources@.len() == i,
                        sources@.map_values(|s: SourceResult| source_view(s)) == all_types().take(i as int).map_values(
                            |t: MemoryType| (memory_type_debug(t), adb_recall(a, t, fp.predicate, fp.modifiers, now)),
                        ),
                    decreases kinds@.len() - i,
                {
                    let t = kinds[i];
                    let records = self.adb.recall_with_modifiers_at(t, &fp.predicate, &fp.modifiers, now);
                    let ghost before = sources@;
                    sources.push(SourceResult { memory_type: owned(memory_type_debug_name(t)), records });
                    proof {
                        assert(sources@ == before.push(sources@[i as int]));
                        assert(sources@.map_values(|s: SourceResult| source_view(s)) =~= before.map_values(
                            |s: SourceResult| source_view(s),
                        ).push(source_view(sources@[i as int])));
                        assert(all_types().take(i + 1) =~= all_types().take(i as int).push(t));
                        assert(all_types().take(i + 1).map_values(
                            |t: MemoryType| (memory_type_debug(t), adb_recall(a, t, fp.predicate, fp.modifiers, now)),
                        ) =~= all_types().take(i as int).map_values(
                            |t: MemoryType| (memory_type_debug(t), adb_recall(a, t, fp.predicate, fp.modifiers, now)),
                        ).push((memory_type_debug(t), adb_recall(a, t, fp.predicate, fp.modifiers, now))));
                    }
                    i = i + 1;
                }
                proof {
                    assert(all_types().take(5) =~= all_types());
                }
                let ghost sv = sources@;
                let links: Vec<Link> = Vec::new();
                let r = Ok(QueryResult {
                    success: true,
                    data: ResultSet::Reflect { sources, links },
                    metadata: ResultMetadata {
                        execution_time_ms: elapsed_ms(&start),
                        records_scanned: None,
                        records_returned: None,
                        step_timings: None,
                    },
                });
                proof {
                    assert(sv.map_values(|s: SourceResult| source_view(s)) == all_types().map_values(
                        |t: MemoryType| (memory_type_debug(t), adb_recall(a, t, fp.predicate, fp.modifiers, now)),
                    ));
                    assert(r matches Ok(q) && q.data matches ResultSet::Reflect { sources, links } && sources@ == sv);
                    assert(fanout_outcome(a, self.db(), *fp, *o, now, r));
                    assert(a == old(self).db());
                    assert(self.plans() == old(self).plans());
                }
                r
            },
            Operation::Forget => {
                let mut total: u64 = 0;
                let ghost mut mids: Seq<Adb> = seq![a];
                let ghost mut counts: Seq<u64> = Seq::empty();
                let mut i: usize = 0;
                while i < kinds.len()
                    invariant
                        i <= kinds@.len(),
                        kinds@ == all_types(),
                        a == old(self).db(),
                        mids.len() == i + 1,
                        counts.len() == i,
                        mids[0] == a,
                        mids[i as int] == self.db(),
                        self.plans() == old(self).plans(),
                        forall|k: int|
                            0 <= k < i ==> #[trigger] forgot(mids[k], mids[k + 1], all_types()[k], fp.predicate, counts[k]),
                        total == saturated(sum_of(counts)),
                    decreases kinds@.len() - i,
                {
                    let n = self.adb.forget(kinds[i], &fp.predicate);
                    proof {
                        assert(counts.push(n).drop_last() =~= counts);
                        lemma_sum_nonneg(counts);
                        counts = counts.push(n);
                        mids = mids.push(self.db());
                        assert(sum_of(counts) == sum_of(counts.drop_last()) + n);
                    }
                    total = total.saturating_add(n);
                    i = i + 1;
                }
                Ok(QueryResult::count(total, elapsed_ms(&start)))
            },
            Operation::Update => {
                let data = match &fp.data {
                    Some(d) => d,
                    None => return Ok(QueryResult::count(0, elapsed_ms(&start))),
                };
                let mut total: u64 = 0;
                let ghost mut mids: Seq<Adb> = seq![a];
                let ghost mut outs: Seq<Result<u64, AdbError>> = Seq::empty();
                let mut i: usize = 0;
                while i < kinds.len()
                    invariant
                        i <= kinds@.len(),
                        kinds@ == all_types(),
                        a == old(self).db(),
                        fp.data == Some(*data),
                        fp.operation == Operation::Update,
                        mids.len() == i + 1,
                        outs.len() == i,
                        mids[0] == a,
                        mids[i as int] == self.db(),
                        self.plans() == old(self).plans(),
                        forall|k: int|
                            0 <= k < i ==> #[trigger] update_done(
                                mids[k],
                                mids[k + 1],
                                all_types()[k],
                                fp.predicate,
                                data@,
                                o.parse,
                                now,
                                outs[k],
                            ),
                        forall|k: int| 0 <= k < i ==> (#[trigger] outs[k]) is Ok,
                        total == saturated(sum_of(outs.map_values(|x: Result<u64, AdbError>| x->Ok_0))),
                        outside_total(*o),
                    decreases kinds@.len() - i,
                {
                    let x = self.adb.update_at(kinds[i], &fp.predicate, data, &o.parse, now);
                    let ghost old_outs = outs;
                    proof {
                        outs = outs.push(x);
                        mids = mids.push(self.db());
                        assert(outs.drop_last() =~= old_outs);
                    }
                    match x {
                        Ok(n) => {
                            proof {
                                let f = |x: Result<u64, AdbError>| x->Ok_0;
                                assert(outs.map_values(f).drop_last() =~= old_outs.map_values(f));
                                lemma_sum_nonneg(old_outs.map_values(f));
                                assert(sum_of(outs.map_values(f)) == sum_of(old_outs.map_values(f)) + n);
                            }
                            total = total.saturating_add(n);
                        },
                        Err(e) => {
                            let r = Err(ExecutorError::Backend(e));
                            proof {
                                let n = outs.len() as int;
                                assert(outs[n - 1] == x);
                                assert(mids[n] == self.db());
                                assert(forall|k: int| 0 <= k < n - 1 ==> (#[trigger] outs[k]) == old_outs[k]);
                                assert(forall|k: int| 0 <= k < n - 1 ==> (#[trigger] outs[k]) is Ok);
                                assert(forall|k: int|
                                    0 <= k < n ==> #[trigger] update_done(
                                        mids[k],
                                        mids[k + 1],
                                        all_types()[k],
                                        fp.predicate,
                                        data@,
                                        o.parse,
                                        now,
                                        outs[k],
                                    ));
                                let d = fp.data.unwrap();
                                assert(d@ == data@);
                                assert(outs[n - 1] matches Err(e3) && r matches Err(ExecutorError::Backend(e2)) && e2 == e3);
                                assert(updates_ran(a, self.db(), *fp, d, o.parse, now, mids, outs, r));
                                assert(fanout_outcome(a, self.db(), *fp, *o, now, r));
                            }
                            return r;
                        },
                    }
                    i = i + 1;
                }
                let r = Ok(QueryResult::count(total, elapsed_ms(&start)));
                proof {
                    let d = fp.data.unwrap();
                    assert(d@ == data@);
                    assert(outs[4] is Ok);
                    assert(updates_ran(a, self.db(), *fp, d, o.parse, now, mids, outs, r));
                }
                r
            },
            _ => {
                let mut m = fp.operation.to_string();
                m.append(" FROM ALL");
                Err(ExecutorError::UnsupportedOperation(m))
            },
        }
    }

    /// Looks up the target of each link by key at instant `now`, adding a
    /// source result for each lookup that finds records; gives what each
    /// lookup found.
    fn lookup_targets(&self, links: &Vec<Link>, now: Timestamp, found: &mut Vec<SourceResult>) -> (parts: Ghost<
        Seq<Seq<RecordView>>,
    >)
        ensures
            looked_up_targets(self.db(), link_views(links@), now, parts@),
            source_views(final(found)@) == source_views(old(found)@) + found_sources(link_views(links@), parts@),
    {
        proof {
            reveal_strlit("id");
        }
        let ghost a = self.db();
        let ghost lv = link_views(links@);
        let ghost f0 = source_views(found@);
        let ghost mut parts: Seq<Seq<RecordView>> = Seq::empty();
        proof {
            assert(lv.take(0) =~= Seq::<LinkView>::empty());
            assert(f0 + found_sources(lv.take(0), parts) =~= f0);
        }
        let mut j: usize = 0;
        while j < links.len()
            invariant
                j <= links@.len(),
                a == self.db(),
                lv == link_views(links@),
                parts.len() == j,
                looked_up_targets(a, lv.take(j as int), now, parts),
                source_views(found@) == f0 + found_sources(lv.take(j as int), parts),
            decreases links@.len() - j,
        {
            let q = Predicate::Key { field: owned("id"), value: Value::String(copy_string(&links[j].to_id)) };
            let m = Modifiers::default();
            let target = self.adb.lookup_with_modifiers_at(links[j].to_type, &q, &m, now);
            let ghost tv = record_views(target@);
            let ghost before = source_views(found@);
            let ghost old_parts = parts;
            assert(target_found(a, lv[j as int], now, tv));
            if target.len() > 0 {
                found.push(SourceResult { memory_type: owned(memory_type_debug_name(links[j].to_type)), records: target });
                proof {
                    assert(source_views(found@) =~= before.push((memory_type_debug(lv[j as int].to_type), tv)));
                }
            }
            proof {
                parts = parts.push(tv);
                assert(lv.take(j + 1).drop_last() =~= lv.take(j as int));
                assert(parts.drop_last() =~= old_parts);
                assert(lv.take(j + 1).last() == lv[j as int]);
                assert forall|x: int| 0 <= x < j + 1 implies #[trigger] target_found(a, lv.take(j + 1)[x], now, parts[x]) by {
                    if x < j {
                        assert(lv.take(j + 1)[x] == lv.take(j as int)[x]);
                        assert(parts[x] == old_parts[x]);
                    }
                }
                if tv.len() > 0 {
                    assert(f0 + found_sources(lv.take(j + 1), parts) =~= (f0 + found_sources(lv.take(j as int), old_parts)).push(
                        (memory_type_debug(lv[j as int].to_type), tv),
                    ));
                }
            }
            j = j + 1;
        }
        proof {
            assert(lv.take(lv.len() as int) =~= lv);
        }
        Ghost(parts)
    }

    /// Follows the links (of type `k`) of each record at instant `now`:
    /// gives the source results the targets make (see `found_sources`) and
    /// the links met.
    fn follow_all(&self, recs: &Vec<MemoryRecord>, k: Option<&str>, now: Timestamp) -> (r: (Vec<SourceResult>, Vec<Link>))
        ensures
            link_views(r.1@) == links_of(self.db(), record_views(recs@), opt_str_view(k)),
            exists|parts: Seq<Seq<RecordView>>|
                {
                    &&& #[trigger] looked_up_targets(
                        self.db(),
                        followed_links(self.db(), record_views(recs@), opt_str_view(k)),
                        now,
                        parts,
                    )
                    &&& source_views(r.0@) == found_sources(
                        followed_links(self.db(), record_views(recs@), opt_str_view(k)),
                        parts,
                    )
                },
    {
            let ghost a = self.db();
        let ghost s = record_views(recs@);
        let ghost kk = opt_str_view(k);
        let ghost h = |r: RecordView| grouped_by_target(links_from(a.link_backend()@.links, r.memory_type, r.id, kk));
        let ghost e = |r: RecordView| links_from(a.link_backend()@.links, r.memory_type, r.id, kk);
        let mut found: Vec<SourceResult> = Vec::new();
        let mut all: Vec<Link> = Vec::new();
        let ghost mut parts: Seq<Seq<RecordView>> = Seq::empty();
        proof {
            assert(s.take(0).map_values(h) =~= Seq::<Seq<LinkView>>::empty());
            assert(s.take(0).map_values(e) =~= Seq::<Seq<LinkView>>::empty());
            assert(Seq::<Seq<LinkView>>::empty().flatten() =~= Seq::<LinkView>::empty());
            assert(source_views(found@) =~= Seq::<(Seq<char>, Seq<RecordView>)>::empty());
            assert(link_views(all@) =~= Seq::<LinkView>::empty());
            assert(found_sources(Seq::<LinkView>::empty(), parts) =~= Seq::<(Seq<char>, Seq<RecordView>)>::empty());
        }
        let mut i: usize = 0;
        while i < recs.len()
            invariant
                i <= recs@.len(),
                a == self.db(),
                s == record_views(recs@),
                kk == opt_str_view(k),
                h == (|r: RecordView| grouped_by_target(links_from(a.link_backend()@.links, r.memory_type, r.id, kk))),
                e == (|r: RecordView| links_from(a.link_backend()@.links, r.memory_type, r.id, kk)),
                parts.len() == s.take(i as int).map_values(h).flatten().len(),
                looked_up_targets(a, s.take(i as int).map_values(h).flatten(), now, parts),
                source_views(found@) == found_sources(s.take(i as int).map_values(h).flatten(), parts),
                link_views(all@) == s.take(i as int).map_values(e).flatten(),
            decreases recs@.len() - i,
        {
            let mut links = self.adb.get_links_from(recs[i].memory_type, recs[i].id.as_str(), k);
            let g = grouped_links(&links);
            let ghost before_found = source_views(found@);
            let ghost before_all = link_views(all@);
            let ghost lv = link_views(links@);
            let Ghost(pi) = self.lookup_targets(&g, now, &mut found);
            all.append(&mut links);
            proof {
                let f_i = s.take(i as int).map_values(h).flatten();
                assert(lv == e(s[i as int]));
                assert(link_views(g@) == h(s[i as int]));
                assert(s.take(i + 1) =~= s.take(i as int).push(s[i as int]));
                assert(s.take(i + 1).map_values(h) =~= s.take(i as int).map_values(h).push(h(s[i as int])));
                assert(s.take(i + 1).map_values(e) =~= s.take(i as int).map_values(e).push(e(s[i as int])));
                s.take(i as int).map_values(h).lemma_flatten_push(h(s[i as int]));
                s.take(i as int).map_values(e).lemma_flatten_push(e(s[i as int]));
                assert(link_views(all@) =~= before_all + lv);
                lemma_found_sources_concat(f_i, parts, link_views(g@), pi);
                lemma_targets_concat(a, f_i, parts, link_views(g@), pi, now);
                parts = parts + pi;
            }
            i = i + 1;
        }
        proof {
            assert(s.take(s.len() as int) =~= s);
            assert(s.map_values(h) =~= s.map_values(
                |r: RecordView| grouped_by_target(links_from(a.link_backend()@.links, r.memory_type, r.id, kk)),
            ));
            assert(s.map_values(e) =~= s.map_values(
                |r: RecordView| links_from(a.link_backend()@.links, r.memory_type, r.id, kk),
            ));
            assert(looked_up_targets(a, followed_links(a, s, kk), now, parts));
        }
        (found, all)
    }

    /// The links (of type `k`) of each record, record by record.
    fn links_of_records(&self, recs: &Vec<MemoryRecord>, k: Option<&str>) -> (r: Vec<Link>)
        ensures
            link_views(r@) == links_of(self.db(), record_views(recs@), opt_str_view(k)),
    {
            let ghost a = self.db();
        let ghost s = record_views(recs@);
        let ghost kk = opt_str_view(k);
        let ghost e = |r: RecordView| links_from(a.link_backend()@.links, r.memory_type, r.id, kk);
        let mut all: Vec<Link> = Vec::new();
        proof {
            assert(s.take(0).map_values(e) =~= Seq::<Seq<LinkView>>::empty());
            assert(Seq::<Seq<LinkView>>::empty().flatten() =~= Seq::<LinkView>::empty());
            assert(link_views(all@) =~= Seq::<LinkView>::empty());
        }
        let mut i: usize = 0;
        while i < recs.len()
            invariant
                i <= recs@.len(),
                a == self.db(),
                s == record_views(recs@),
                kk == opt_str_view(k),
                e == (|r: RecordView| links_from(a.link_backend()@.links, r.memory_type, r.id, kk)),
                link_views(all@) == s.take(i as int).map_values(e).flatten(),
            decreases recs@.len() - i,
        {
            let mut links = self.adb.get_links_from(recs[i].memory_type, recs[i].id.as_str(), k);
            let ghost before_all = link_views(all@);
            let ghost lv = link_views(links@);
            all.append(&mut links);
            proof {
                assert(s.take(i + 1) =~= s.take(i as int).push(s[i as int]));
                assert(s.take(i + 1).map_values(e) =~= s.take(i as int).map_values(e).push(e(s[i as int])));
                s.take(i as int).map_values(e).lemma_flatten_push(e(s[i as int]));
                assert(link_views(all@) =~= before_all + lv);
            }
            i = i + 1;
        }
        proof {
            assert(s.take(s.len() as int) =~= s);
            assert(s.map_values(e) =~= s.map_values(
                |r: RecordView| links_from(a.link_backend()@.links, r.memory_type, r.id, kk),
            ));
        }
        all
    }

    /// Runs a REFLECT at instant `now` (see `reflect_outcome`).
    fn execute_reflect<P, W, A, T>(&mut self, rp: &ReflectPlan, o: &Outside<P, W, A, T>, now: Timestamp) -> (r: Result<
        QueryResult,
        ExecutorError,
    >) where
        P: Fn(String) -> Option<u64>,
        W: Fn(u32, u32) -> u32,
        A: Fn(AggregateFuncType, Vec<u64>) -> u64,
        T: Fn(Json) -> String,

        requires
            outside_total(*o),
        ensures
            reflect_outcome(old(self).db(), final(self).db(), *rp, *o, now, r),
            final(self).plans() == old(self).plans(),
    {
        let start = clock_now();
        let ghost a = self.db();
        let ghost srcs = reflect_sources(a, *rp, now);
        let ghost pick = |x: (Seq<char>, Seq<RecordView>)| x.1;
        let mut sources: Vec<SourceResult> = Vec::new();
        let mut recs: Vec<MemoryRecord> = Vec::new();
        proof {
            assert(srcs.take(0) =~= Seq::<(Seq<char>, Seq<RecordView>)>::empty());
            assert(srcs.take(0).map_values(pick) =~= Seq::<Seq<RecordView>>::empty());
            assert(Seq::<Seq<RecordView>>::empty().flatten() =~= Seq::<RecordView>::empty());
            assert(source_views(sources@) =~= Seq::<(Seq<char>, Seq<RecordView>)>::empty());
            assert(record_views(recs@) =~= Seq::<RecordView>::empty());
        }
        let mut i: usize = 0;
        while i < rp.sources.len()
            invariant
                i <= rp.sources@.len(),
                a == self.db(),
                srcs == reflect_sources(a, *rp, now),
                pick == (|x: (Seq<char>, Seq<RecordView>)| x.1),
                source_views(sources@) == srcs.take(i as int),
                record_views(recs@) == srcs.take(i as int).map_values(pick).flatten(),
            decreases rp.sources@.len() - i,
        {
            let src = &rp.sources[i];
            let records = self.adb.recall_with_modifiers_at(src.memory_type, &src.predicate, &src.modifiers, now);
            let mut c = crate::records::copy_records(&records);
            let ghost rv = record_views(records@);
            let ghost before_recs = record_views(recs@);
            let ghost before_src = source_views(sources@);
            recs.append(&mut c);
            sources.push(SourceResult { memory_type: owned(memory_type_debug_name(src.memory_type)), records });
            proof {
                assert(srcs[i as int] == (memory_type_debug(src.memory_type), rv));
                assert(srcs.take(i + 1) =~= srcs.take(i as int).push(srcs[i as int]));
                assert(source_views(sources@) =~= before_src.push(srcs[i as int]));
                assert(srcs.take(i + 1).map_values(pick) =~= srcs.take(i as int).map_values(pick).push(rv));
                srcs.take(i as int).map_values(pick).lemma_flatten_push(rv);
                assert(record_views(recs@) =~= before_recs + rv);
            }
            i = i + 1;
        }
        proof {
            assert(srcs.take(srcs.len() as int) =~= srcs);
            assert(srcs.map_values(pick) =~= srcs.map_values(|x: (Seq<char>, Seq<RecordView>)| x.1));
            assert(record_views(recs@) == source_records(srcs));
        }
        let mut all_links: Vec<Link> = Vec::new();
        assert(link_views(all_links@) =~= Seq::<LinkView>::empty());
        match &rp.link_options {
            Some(lo) => {
                let k = match &lo.link_type {
                    Some(t) => Some(t.as_str()),
                    None => None,
                };
                assert(opt_str_view(k) == opt_view(lo.link_type));
                if lo.follow {
                    let (found, ls) = self.follow_all(&recs, k, now);
                    all_links = ls;
                    if found.len() > 0 {
                        sources = found;
                    }
                } else if lo.with_links {
                    all_links = self.links_of_records(&recs, k);
                }
            },
            None => {},
        }
        let ghost sv = source_views(sources@);
        let ghost lv = link_views(all_links@);
        proof {
            assert(reflected(a, *rp, now, sv, lv));
        }
        match &rp.then_step {
            Some(st) => {
                let x = self.execute_step(st, o, now);
                match x {
                    Ok(_) => {},
                    Err(e) => return Err(e),
                }
            },
            None => {},
        }
        Ok(QueryResult {
            success: true,
            data: ResultSet::Reflect { sources, links: all_links },
            metadata: ResultMetadata {
                execution_time_ms: elapsed_ms(&start),
                records_scanned: None,
                records_returned: None,
                step_timings: None,
            },
        })
    }

    /// Runs a pipeline at instant `now` (see `pipeline_outcome`).
    #[verifier::rlimit(30)]
    fn execute_pipeline<P, W, A, T>(&mut self, pp: PipelinePlan, o: &Outside<P, W, A, T>, now: Timestamp) -> (r: Result<
        QueryResult,
        ExecutorError,
    >) where
        P: Fn(String) -> Option<u64>,
        W: Fn(u32, u32) -> u32,
        A: Fn(AggregateFuncType, Vec<u64>) -> u64,
        T: Fn(Json) -> String,

        requires
            outside_total(*o),
        ensures
            pipeline_outcome(old(self).db(), final(self).db(), pp, *o, now, r),
            final(self).plans() == old(self).plans(),
    {
        let start = clock_now();
        let ghost pp0 = pp;
        let ghost stages0 = pp.stages@;
        let PipelinePlan { name, timeout, stages } = pp;
        let n = stages.len();
        let mut rest = crate::seqs::reversed(stages);
        let ghost a = self.db();
        let mut bindings: Vec<(String, Value)> = Vec::new();
        let mut results: Vec<QueryResult> = Vec::new();
        let ghost mut mids: Seq<Adb> = seq![a];
        let ghost mut binds: Seq<Seq<(Seq<char>, ValueView)>> = seq![binding_views(bindings@)];
        let ghost mut outs: Seq<Result<QueryResult, ExecutorError>> = Seq::empty();
        proof {
            assert(binding_views(bindings@) =~= Seq::<(Seq<char>, ValueView)>::empty());
        }
        let mut i: usize = 0;
        while rest.len() > 0
            invariant
                i + rest@.len() == stages0.len(),
                stages0.len() == n,
                rest@ == stages0.reverse().take(stages0.len() - i),
                pp0.stages@ == stages0,
                pp0 == pp,
                a == old(self).db(),
                self.plans() == old(self).plans(),
                outside_total(*o),
                outs.len() == i,
                mids.len() == i + 1,
                binds.len() == i + 1,
                mids[0] == a,
                mids[i as int] == self.db(),
                binds[0].len() == 0,
                binds[i as int] == binding_views(bindings@),
                bindings_wf(binding_views(bindings@)),
                forall|k: int|
                    0 <= k < i ==> #[trigger] stage_outcome(mids[k], mids[k + 1], stages0[k], binds[k], *o, now, outs[k]),
                forall|k: int| 0 <= k < i ==> (#[trigger] outs[k]) is Ok,
                forall|k: int|
                    0 <= k < i && outs[k] is Ok ==> extracted(o.text, binds[k], (#[trigger] outs[k])->Ok_0.data, binds[k + 1]),
                results@ == outs.map_values(|x: Result<QueryResult, ExecutorError>| x->Ok_0),
            decreases rest@.len(),
        {
            let ghost before = rest@;
            let stage = rest.pop().unwrap();
            proof {
                assert(stage == before.last());
                assert(before.last() == stages0.reverse()[stages0.len() - i - 1]);
                assert(stage == stages0[i as int]);
                assert(rest@ =~= stages0.reverse().take(stages0.len() - (i + 1)));
            }
            let x = match stage {
                PipelineStage::Step(st) => {
                    let ghost st0 = st;
                    let mut st = st;
                    let bound = bind_variables_in_predicate(&st.predicate, &bindings);
                    st.predicate = bound;
                    assert(st == (StepPlan { predicate: st.predicate, ..st0 }));
                    self.execute_step(&st, o, now)
                },
                PipelineStage::Reflect(rp) => self.execute_reflect(&rp, o, now),
            };
            proof {
                mids = mids.push(self.db());
                outs = outs.push(x);
            }
            match x {
                Ok(q) => {
                    bindings = extract_bindings(&q, bindings, &o.text);
                    results.push(q);
                    proof {
                        binds = binds.push(binding_views(bindings@));
                    }
                },
                Err(e) => {
                    let message = e.to_string();
                    let r = Err(ExecutorError::PipelineError { step: i, message });
                    proof {
                        binds = binds.push(binds[i as int]);
                        assert(outs[i as int] == x);
                        assert(pipeline_ran(a, self.db(), pp0, *o, now, mids, binds, outs, r));
                    }
                    return r;
                },
            }
            i = i + 1;
        }
        let r = Ok(QueryResult::pipeline(results, elapsed_ms(&start)));
        proof {
            assert(pipeline_ran(a, self.db(), pp0, *o, now, mids, binds, outs, r));
        }
        r
    }

    /// Runs a plan at instant `now` (see `plan_outcome`).
    pub fn execute_plan_at<P, W, A, T>(&mut self, plan: ExecutionPlan, o: &Outside<P, W, A, T>, now: Timestamp) -> (r:
        Result<QueryResult, ExecutorError>) where
        P: Fn(String) -> Option<u64>,
        W: Fn(u32, u32) -> u32,
        A: Fn(AggregateFuncType, Vec<u64>) -> u64,
        T: Fn(Json) -> String,

        requires
            outside_total(*o),
        ensures
            plan_outcome(old(self).db(), final(self).db(), plan, *o, now, r),
            final(self).plans() == old(self).plans(),
    {
        match plan {
            ExecutionPlan::Single(st) => self.execute_step(&st, o, now),
            ExecutionPlan::Pipeline(pp) => self.execute_pipeline(pp, o, now),
            ExecutionPlan::Reflect(rp) => self.execute_reflect(&rp, o, now),
            ExecutionPlan::FanOut(fp) => self.execute_fanout(&fp, o, now),
        }
    }

    /// Runs a plan now (see `plan_outcome`).
    pub fn execute_plan<P, W, A, T>(&mut self, plan: ExecutionPlan, o: &Outside<P, W, A, T>) -> (r: Result<
        QueryResult,
        ExecutorError,
    >) where
        P: Fn(String) -> Option<u64>,
        W: Fn(u32, u32) -> u32,
        A: Fn(AggregateFuncType, Vec<u64>) -> u64,
        T: Fn(Json) -> String,

        requires
            outside_total(*o),
        ensures
            exists|now: Timestamp| now.wf() && plan_outcome(old(self).db(), final(self).db(), plan, *o, now, r),
            final(self).plans() == old(self).plans(),
    {
        let now = clock_now();
        self.execute_plan_at(plan, o, now)
    }

    /// Plans a statement (see `planned`) and runs that plan now.  A
    /// statement that cannot be planned fails with the planner's error (see
    /// `plan_failed`), changing nothing.
    pub fn execute_statement<P, W, A, T>(&mut self, stmt: Statement, o: &Outside<P, W, A, T>) -> (r: Result<
        QueryResult,
        ExecutorError,
    >) where
        P: Fn(String) -> Option<u64>,
        W: Fn(u32, u32) -> u32,
        A: Fn(AggregateFuncType, Vec<u64>) -> u64,
        T: Fn(Json) -> String,

        requires
            outside_total(*o),
        ensures
            !plannable(stmt) ==> (r matches Err(ExecutorError::Planning(_)) && final(self).db() == old(self).db()),
            plannable(stmt) ==> exists|plan: ExecutionPlan, now: Timestamp|
                {
                    &&& now.wf()
                    &&& planned(old(self).plans(), stmt, plan)
                    &&& #[trigger] plan_outcome(old(self).db(), final(self).db(), plan, *o, now, r)
                },
            !plannable(stmt) ==> (r matches Err(ExecutorError::Planning(e)) && plan_failed(stmt, e)),
            final(self).plans() == old(self).plans(),
    {
        let ghost s0 = stmt;
        match self.planner.plan(stmt) {
            Ok(plan) => {
                let ghost p0 = plan;
                let ghost pl = self.planner;
                let r = self.execute_plan(plan, o);
                assert(planned(pl, s0, p0));
                r
            },
            Err(e) => Err(ExecutorError::Planning(e)),
        }
    }
}

} // verus!

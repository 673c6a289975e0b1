//! Execution plans: what the executor runs for a statement.
use vstd::prelude::*;
use crate::float::{f64_bits_of_f32, f64_of_f32};
use crate::json::{
    array_of, items_view, json_from_f64, json_from_i64, json_of_f64, json_of_i64, members_view,
    object_of, push_item, push_member, string_of, Json, JsonView, Number,
};
use crate::memory::MemoryType;
use crate::predicate::{Condition, Modifiers, Operator, Predicate, Value, ValueView};
use crate::scope::Scope;
use crate::text::{owned, push_char};
use crate::time::Ttl;

verus! {

broadcast use vstd::string::group_string_axioms;

/// What a step does.
#[derive(Clone, Copy, Debug, PartialEq, Eq, Structural)]
pub enum Operation {
    /// Every working-memory record.
    Scan,
    Recall,
    Lookup,
    /// Ranked tools.
    Load,
    Store,
    Update,
    Forget,
    Link,
}

/// The displayed name of an operation.
pub open spec fn operation_name(o: Operation) -> Seq<char> {
    match o {
        Operation::Scan => "SCAN"@,
        Operation::Recall => "RECALL"@,
        Operation::Lookup => "LOOKUP"@,
        Operation::Load => "LOAD"@,
        Operation::Store => "STORE"@,
        Operation::Update => "UPDATE"@,
        Operation::Forget => "FORGET"@,
        Operation::Link => "LINK"@,
    }
}

impl Operation {
    /// The displayed name ("SCAN", "RECALL", ...).
    pub fn to_string(&self) -> (r: String)
        ensures
            r@ == operation_name(*self),
    {
        match self {
            Operation::Scan => owned("SCAN"),
            Operation::Recall => owned("RECALL"),
            Operation::Lookup => owned("LOOKUP"),
            Operation::Load => owned("LOAD"),
            Operation::Store => owned("STORE"),
            Operation::Update => owned("UPDATE"),
            Operation::Forget => owned("FORGET"),
            Operation::Link => owned("LINK"),
        }
    }
}

/// One operation on one memory kind.
#[derive(Debug)]
pub struct StepPlan {
    pub operation: Operation,
    pub memory_type: MemoryType,
    pub predicate: Predicate,
    pub modifiers: Modifiers,
    /// Operation data: the record to store, the update, or the link.
    pub data: Option<Json>,
}

/// One source of a REFLECT.
#[derive(Debug)]
pub struct ReflectSourcePlan {
    pub memory_type: MemoryType,
    pub predicate: Predicate,
    pub modifiers: Modifiers,
}

/// Link options of a REFLECT.
#[derive(Debug)]
pub struct LinkOptions {
    /// Return the links of the records found.
    pub with_links: bool,
    /// Only links of this type.
    pub link_type: Option<String>,
    /// Return the records the links lead to.
    pub follow: bool,
    pub depth: u32,
}

/// A query over several sources, with optional link traversal and a
/// follow-up step.
#[derive(Debug)]
pub struct ReflectPlan {
    pub sources: Vec<ReflectSourcePlan>,
    pub link_options: Option<LinkOptions>,
    pub then_step: Option<Box<StepPlan>>,
}

/// One operation on every memory kind.
#[derive(Debug)]
pub struct FanOutPlan {
    pub operation: Operation,
    pub predicate: Predicate,
    pub modifiers: Modifiers,
    pub data: Option<Json>,
}

/// A stage of a pipeline.
#[derive(Debug)]
pub enum PipelineStage {
    Step(StepPlan),
    Reflect(ReflectPlan),
}

/// Stages run in order, each able to use the previous results.
#[derive(Debug)]
pub struct PipelinePlan {
    pub name: String,
    pub timeout: Option<Ttl>,
    pub stages: Vec<PipelineStage>,
}

/// A plan.
#[derive(Debug)]
pub enum ExecutionPlan {
    Single(StepPlan),
    Pipeline(PipelinePlan),
    Reflect(ReflectPlan),
    FanOut(FanOutPlan),
}

/// The record a STORE step stores.
#[derive(Debug)]
pub struct StoreData {
    pub key: String,
    pub payload: Json,
    pub scope: Scope,
    pub namespace: Option<String>,
    pub ttl: Option<Ttl>,
}

/// The link a LINK step makes: from the records matching one predicate to
/// those matching another.
#[derive(Debug)]
pub struct LinkData {
    pub from_type: MemoryType,
    pub from_predicate: Predicate,
    pub to_type: MemoryType,
    pub to_predicate: Predicate,
    pub link_type: String,
    /// Weight (an `f32` bit pattern).
    pub weight: u32,
}

// ---------------------------------------------------------------------------
// JSON forms of store and link data
// ---------------------------------------------------------------------------

/// The `Debug` name of a scope.
pub open spec fn scope_debug(s: Scope) -> Seq<char> {
    match s {
        Scope::Private => "Private"@,
        Scope::Shared => "Shared"@,
        Scope::Cluster => "Cluster"@,
    }
}

/// The `Debug` name of a memory kind.
pub open spec fn memory_type_debug(t: MemoryType) -> Seq<char> {
    match t {
        MemoryType::Working => "Working"@,
        MemoryType::Tools => "Tools"@,
        MemoryType::Procedural => "Procedural"@,
        MemoryType::Semantic => "Semantic"@,
        MemoryType::Episodic => "Episodic"@,
    }
}

/// The `Debug` name of an operator.
pub open spec fn operator_debug(o: Operator) -> Seq<char> {
    match o {
        Operator::Eq => "Eq"@,
        Operator::Ne => "Ne"@,
        Operator::Gt => "Gt"@,
        Operator::Gte => "Gte"@,
        Operator::Lt => "Lt"@,
        Operator::Lte => "Lte"@,
        Operator::Contains => "Contains"@,
        Operator::StartsWith => "StartsWith"@,
        Operator::EndsWith => "EndsWith"@,
        Operator::In => "In"@,
    }
}

/// The `Debug` name of a scope.
pub fn scope_debug_name(s: Scope) -> (r: &'static str)
    ensures
        r@ == scope_debug(s),
{
    match s {
        Scope::Private => "Private",
        Scope::Shared => "Shared",
        Scope::Cluster => "Cluster",
    }
}

/// The `Debug` name of a memory kind.
pub fn memory_type_debug_name(t: MemoryType) -> (r: &'static str)
    ensures
        r@ == memory_type_debug(t),
{
    match t {
        MemoryType::Working => "Working",
        MemoryType::Tools => "Tools",
        MemoryType::Procedural => "Procedural",
        MemoryType::Semantic => "Semantic",
        MemoryType::Episodic => "Episodic",
    }
}

/// The `Debug` name of an operator.
pub fn operator_debug_name(o: Operator) -> (r: &'static str)
    ensures
        r@ == operator_debug(o),
{
    match o {
        Operator::Eq => "Eq",
        Operator::Ne => "Ne",
        Operator::Gt => "Gt",
        Operator::Gte => "Gte",
        Operator::Lt => "Lt",
        Operator::Lte => "Lte",
        Operator::Contains => "Contains",
        Operator::StartsWith => "StartsWith",
        Operator::EndsWith => "EndsWith",
        Operator::In => "In",
    }
}

/// An optional string as JSON: the string, or null.
pub open spec fn opt_string_json(s: Option<String>) -> JsonView {
    match s {
        Some(x) => JsonView::String(x@),
        None => JsonView::Null,
    }
}

/// The JSON form of store data: an object with members `key`,
/// `namespace`, `payload`, `scope` (the scope's `Debug` name) and `ttl_ms`
/// (the time to live in whole milliseconds, truncated to 64 bits), in key
/// order.
pub open spec fn store_data_json(d: StoreData) -> JsonView {
    JsonView::Object(
        seq![
            ("key"@, JsonView::String(d.key@)),
            ("namespace"@, opt_string_json(d.namespace)),
            ("payload"@, d.payload@),
            ("scope"@, JsonView::String(scope_debug(d.scope))),
            ("ttl_ms"@, match d.ttl {
                Some(t) => JsonView::Number(Number::PosInt((t.total() / 1_000_000) as u64)),
                None => JsonView::Null,
            }),
        ],
    )
}

/// The JSON form of a condition value: integers and strings as they are,
/// doubles as numbers (null when not finite), variables as `$name`.
pub open spec fn condition_value_json(v: ValueView) -> JsonView
    decreases v,
{
    match v {
        ValueView::Null => JsonView::Null,
        ValueView::Bool(b) => JsonView::Bool(b),
        ValueView::Int(i) => json_of_i64(i),
        ValueView::Float(f) => json_of_f64(f),
        ValueView::String(s) => JsonView::String(s),
        ValueView::Variable(n) => JsonView::String(seq!['$'] + n),
        ValueView::Array(a) => JsonView::Array(
            Seq::new(a.len(), |i: int| if 0 <= i < a.len() { condition_value_json(a[i]) } else { JsonView::Null }),
        ),
    }
}

/// The JSON form of one condition: `{field, operator, value}`.
pub open spec fn condition_json(field: Seq<char>, op: Operator, v: ValueView) -> JsonView {
    JsonView::Object(
        seq![
            ("field"@, JsonView::String(field)),
            ("operator"@, JsonView::String(operator_debug(op))),
            ("value"@, condition_value_json(v)),
        ],
    )
}

/// The conditions of a predicate as JSON: one per WHERE condition, one
/// equality for a KEY predicate, none for others.
pub open spec fn predicate_conditions_json(p: Predicate) -> Seq<JsonView> {
    match p {
        Predicate::Where { conditions } => Seq::new(
            conditions@.len(),
            |i: int| condition_json(conditions@[i].field@, conditions@[i].operator, conditions@[i].value@),
        ),
        Predicate::Key { field, value } => seq![condition_json(field@, Operator::Eq, value@)],
        _ => Seq::empty(),
    }
}

/// The JSON form of link data, members in key order; the weight is the
/// single widened to a double.
pub open spec fn link_data_json(d: LinkData) -> JsonView {
    JsonView::Object(
        seq![
            ("from_conditions"@, JsonView::Array(predicate_conditions_json(d.from_predicate))),
            ("from_type"@, JsonView::String(memory_type_debug(d.from_type))),
            ("link_type"@, JsonView::String(d.link_type@)),
            ("to_conditions"@, JsonView::Array(predicate_conditions_json(d.to_predicate))),
            ("to_type"@, JsonView::String(memory_type_debug(d.to_type))),
            ("weight"@, json_of_f64(f64_of_f32(d.weight) as u64)),
        ],
    )
}

/// `condition_value_json`.
#[verifier::loop_isolation(false)]
pub fn condition_value_to_json(v: &Value) -> (r: Json)
    ensures
        r@ == condition_value_json(v@),
    decreases v,
{
    match v {
        Value::Null => Json::Null,
        Value::Bool(b) => Json::Bool(*b),
        Value::Int(i) => json_from_i64(*i),
        Value::Float(f) => json_from_f64(*f),
        Value::String(s) => string_of(s.as_str()),
        Value::Variable(n) => {
            let mut s = String::new();
            push_char(&mut s, '$');
            s.append(n.as_str());
            assert(s@ =~= seq!['$'] + n@);
            Json::String(s)
        },
        Value::Array(a) => {
            let mut out: Vec<Json> = Vec::new();
            assert(items_view(out@) =~= Seq::empty());
            let mut i: usize = 0;
            while i < a.len()
                invariant
                    i <= a@.len(),
                    v@ is Array,
                    v@->Array_0.len() == a@.len(),
                    forall|k: int| 0 <= k < a@.len() ==> v@->Array_0[k] == crate::predicate::element_view(a@, k),
                    items_view(out@) == Seq::new(
                        i as nat,
                        |k: int| condition_value_json(v@->Array_0[k]),
                    ),
                decreases a@.len() - i,
            {
                proof {
                    assert(decreases_to!(*v => v->Array_0));
                    assert(decreases_to!(v->Array_0 => v->Array_0@));
                    assert(decreases_to!(v->Array_0@ => v->Array_0@[i as int]));
                }
                let j = condition_value_to_json(&a[i]);
                let ghost before = items_view(out@);
                push_item(&mut out, j);
                assert(crate::predicate::element_view(a@, i as int) == a@[i as int]@);
                assert(v@->Array_0[i as int] == a@[i as int]@);
                assert(items_view(out@) =~= Seq::new(
                    (i + 1) as nat,
                    |k: int| condition_value_json(v@->Array_0[k]),
                ));
                i = i + 1;
            }
            let r = array_of(out);
            assert(items_view(out@) =~= condition_value_json(v@)->Array_0);
            r
        },
    }
}

/// `condition_json`.
fn condition_to_json(field: &str, op: Operator, v: &Value) -> (r: Json)
    ensures
        r@ == condition_json(field@, op, v@),
{
    let mut m: Vec<(String, Json)> = Vec::new();
    assert(members_view(m@) =~= Seq::empty());
    push_member(&mut m, "field", string_of(field));
    push_member(&mut m, "operator", string_of(operator_debug_name(op)));
    push_member(&mut m, "value", condition_value_to_json(v));
    proof {
        reveal_strlit("field");
        reveal_strlit("operator");
        reveal_strlit("value");
    }
    assert(members_view(m@) =~= condition_json(field@, op, v@)->Object_0);
    let r = object_of(m);
    r
}

/// `predicate_conditions_json`, as an array.
pub fn predicate_to_conditions(p: &Predicate) -> (r: Json)
    ensures
        r@ == JsonView::Array(predicate_conditions_json(*p)),
{
    let mut out: Vec<Json> = Vec::new();
    assert(items_view(out@) =~= Seq::empty());
    match p {
        Predicate::Where { conditions } => {
            let mut i: usize = 0;
            while i < conditions.len()
                invariant
                    i <= conditions@.len(),
                    items_view(out@) == Seq::new(
                        i as nat,
                        |k: int| condition_json(conditions@[k].field@, conditions@[k].operator, conditions@[k].value@),
                    ),
                decreases conditions@.len() - i,
            {
                let c = &conditions[i];
                let j = condition_to_json(c.field.as_str(), c.operator, &c.value);
                push_item(&mut out, j);
                assert(items_view(out@) =~= Seq::new(
                    (i + 1) as nat,
                    |k: int| condition_json(conditions@[k].field@, conditions@[k].operator, conditions@[k].value@),
                ));
                i = i + 1;
            }
        },
        Predicate::Key { field, value } => {
            let j = condition_to_json(field.as_str(), Operator::Eq, value);
            push_item(&mut out, j);
            assert(items_view(out@) =~= seq![condition_json(field@, Operator::Eq, value@)]);
        },
        _ => {
            assert(items_view(out@) =~= Seq::<JsonView>::empty());
        },
    }
    array_of(out)
}

/// `store_data_json`.
pub fn store_data_to_json(d: StoreData) -> (r: Json)
    ensures
        r@ == store_data_json(d),
{
    let ghost dd = d;
    let StoreData { key, payload, scope, namespace, ttl } = d;
    let mut m: Vec<(String, Json)> = Vec::new();
    assert(members_view(m@) =~= Seq::empty());
    push_member(&mut m, "key", string_of(key.as_str()));
    let ns = match &namespace {
        Some(n) => string_of(n.as_str()),
        None => Json::Null,
    };
    push_member(&mut m, "namespace", ns);
    push_member(&mut m, "payload", payload);
    push_member(&mut m, "scope", string_of(scope_debug_name(scope)));
    let t = match ttl {
        Some(t) => {
            let ms: u128 = t.as_millis();
            Json::Number(Number::PosInt(#[verifier::truncate] (ms as u64)))
        },
        None => Json::Null,
    };
    push_member(&mut m, "ttl_ms", t);
    proof {
        reveal_strlit("key");
        reveal_strlit("namespace");
        reveal_strlit("payload");
        reveal_strlit("scope");
        reveal_strlit("ttl_ms");
    }
    assert(members_view(m@) =~= store_data_json(dd)->Object_0);
    let r = object_of(m);
    r
}

/// `link_data_json`.
pub fn link_data_to_json(d: &LinkData) -> (r: Json)
    ensures
        r@ == link_data_json(*d),
{
    let mut m: Vec<(String, Json)> = Vec::new();
    assert(members_view(m@) =~= Seq::empty());
    push_member(&mut m, "from_conditions", predicate_to_conditions(&d.from_predicate));
    push_member(&mut m, "from_type", string_of(memory_type_debug_name(d.from_type)));
    push_member(&mut m, "link_type", string_of(d.link_type.as_str()));
    push_member(&mut m, "to_conditions", predicate_to_conditions(&d.to_predicate));
    push_member(&mut m, "to_type", string_of(memory_type_debug_name(d.to_type)));
    push_member(&mut m, "weight", json_from_f64(f64_bits_of_f32(d.weight)));
    proof {
        reveal_strlit("from_conditions");
        reveal_strlit("from_type");
        reveal_strlit("link_type");
        reveal_strlit("to_conditions");
        reveal_strlit("to_type");
        reveal_strlit("weight");
    }
    assert(members_view(m@) =~= link_data_json(*d)->Object_0);
    let r = object_of(m);
    r
}

// ---------------------------------------------------------------------------
// Steps
// ---------------------------------------------------------------------------

impl StepPlan {
    /// SCAN of working memory.
    pub fn scan(modifiers: Modifiers) -> (r: StepPlan)
        ensures
            r == (StepPlan {
                operation: Operation::Scan,
                memory_type: MemoryType::Working,
                predicate: Predicate::All,
                modifiers,
                data: None,
            }),
    {
        StepPlan {
            operation: Operation::Scan,
            memory_type: MemoryType::Working,
            predicate: Predicate::All,
            modifiers,
            data: None,
        }
    }

    /// RECALL from a memory kind.
    pub fn recall(memory_type: MemoryType, predicate: Predicate, modifiers: Modifiers) -> (r: StepPlan)
        ensures
            r == (StepPlan { operation: Operation::Recall, memory_type, predicate, modifiers, data: None }),
    {
        StepPlan { operation: Operation::Recall, memory_type, predicate, modifiers, data: None }
    }

    /// LOOKUP in a memory kind.
    pub fn lookup(memory_type: MemoryType, predicate: Predicate, modifiers: Modifiers) -> (r: StepPlan)
        ensures
            r == (StepPlan { operation: Operation::Lookup, memory_type, predicate, modifiers, data: None }),
    {
        StepPlan { operation: Operation::Lookup, memory_type, predicate, modifiers, data: None }
    }

    /// LOAD of ranked tools.
    pub fn load(predicate: Predicate, modifiers: Modifiers) -> (r: StepPlan)
        ensures
            r == (StepPlan {
                operation: Operation::Load,
                memory_type: MemoryType::Tools,
                predicate,
                modifiers,
                data: None,
            }),
    {
        StepPlan { operation: Operation::Load, memory_type: MemoryType::Tools, predicate, modifiers, data: None }
    }

    /// STORE of a record; the data is the record's JSON form.
    pub fn store(memory_type: MemoryType, data: StoreData, modifiers: Modifiers) -> (r: StepPlan)
        ensures
            r.operation == Operation::Store,
            r.memory_type == memory_type,
            r.predicate == Predicate::All,
            r.modifiers == modifiers,
            r.data matches Some(j) && j@ == store_data_json(data),
    {
        let j = store_data_to_json(data);
        StepPlan { operation: Operation::Store, memory_type, predicate: Predicate::All, modifiers, data: Some(j) }
    }

    /// UPDATE with a payload.
    pub fn update(memory_type: MemoryType, predicate: Predicate, payload: Json, modifiers: Modifiers) -> (r: StepPlan)
        ensures
            r == (StepPlan {
                operation: Operation::Update,
                memory_type,
                predicate,
                modifiers,
                data: Some(payload),
            }),
    {
        StepPlan { operation: Operation::Update, memory_type, predicate, modifiers, data: Some(payload) }
    }

    /// FORGET from a memory kind.
    pub fn forget(memory_type: MemoryType, predicate: Predicate, modifiers: Modifiers) -> (r: StepPlan)
        ensures
            r == (StepPlan { operation: Operation::Forget, memory_type, predicate, modifiers, data: None }),
    {
        StepPlan { operation: Operation::Forget, memory_type, predicate, modifiers, data: None }
    }

    /// LINK; the step's predicate selects the source records, the data is
    /// the link's JSON form.
    pub fn link(link_data: LinkData) -> (r: StepPlan)
        ensures
            r.operation == Operation::Link,
            r.memory_type == link_data.from_type,
            r.predicate == link_data.from_predicate,
            crate::predicate::no_modifiers(r.modifiers),
            r.data matches Some(j) && j@ == link_data_json(link_data),
    {
        let j = link_data_to_json(&link_data);
        let LinkData { from_type, from_predicate, .. } = link_data;
        StepPlan {
            operation: Operation::Link,
            memory_type: from_type,
            predicate: from_predicate,
            modifiers: Modifiers::default(),
            data: Some(j),
        }
    }
}

// ---------------------------------------------------------------------------
// Planning errors
// ---------------------------------------------------------------------------

/// Why a statement could not be planned.
#[derive(Debug)]
pub enum PlanError {
    UnsupportedOperation { op: String, memory_type: String },
    InvalidMemoryType(String),
    MissingField(String),
    InvalidPredicate { predicate: String, op: String },
    /// A pipeline with no stages.
    EmptyPipeline,
    UnboundVariable(String),
    TypeMismatch { expected: String, actual: String },
}

/// The message of a planning error.
pub open spec fn plan_error_text(e: PlanError) -> Seq<char> {
    match e {
        PlanError::UnsupportedOperation { op, memory_type } => "Unsupported operation '"@ + op@
            + "' for memory type '"@ + memory_type@ + "'"@,
        PlanError::InvalidMemoryType(s) => "Invalid memory type: "@ + s@,
        PlanError::MissingField(s) => "Missing required field: "@ + s@,
        PlanError::InvalidPredicate { predicate, op } => "Invalid predicate '"@ + predicate@
            + "' for operation '"@ + op@ + "'"@,
        PlanError::EmptyPipeline => "Pipeline must contain at least one stage"@,
        PlanError::UnboundVariable(s) => "Variable '$"@ + s@ + "' is not bound"@,
        PlanError::TypeMismatch { expected, actual } => "Type mismatch: expected "@ + expected@
            + ", got "@ + actual@,
    }
}

/// `a`, `b`, `c`, `d` and `e` in a row.
fn concat5(a: &str, b: &str, c: &str, d: &str, e: &str) -> (r: String)
    ensures
        r@ == a@ + b@ + c@ + d@ + e@,
{
    let mut s = owned(a);
    s.append(b);
    s.append(c);
    s.append(d);
    s.append(e);
    s
}

impl PlanError {
    /// The message of this error.
    pub fn to_string(&self) -> (r: String)
        ensures
            r@ == plan_error_text(*self),
    {
        proof {
            reveal_strlit("Unsupported operation '");
            reveal_strlit("' for memory type '");
            reveal_strlit("'");
            reveal_strlit("Invalid memory type: ");
            reveal_strlit("Missing required field: ");
            reveal_strlit("Invalid predicate '");
            reveal_strlit("' for operation '");
            reveal_strlit("Pipeline must contain at least one stage");
            reveal_strlit("Variable '$");
            reveal_strlit("' is not bound");
            reveal_strlit("Type mismatch: expected ");
            reveal_strlit(", got ");
            reveal_strlit("");
        }
        match self {
            PlanError::UnsupportedOperation { op, memory_type } => concat5(
                "Unsupported operation '",
                op.as_str(),
                "' for memory type '",
                memory_type.as_str(),
                "'",
            ),
            PlanError::InvalidMemoryType(s) => concat5("Invalid memory type: ", s.as_str(), "", "", ""),
            PlanError::MissingField(s) => concat5("Missing required field: ", s.as_str(), "", "", ""),
            PlanError::InvalidPredicate { predicate, op } => concat5(
                "Invalid predicate '",
                predicate.as_str(),
                "' for operation '",
                op.as_str(),
                "'",
            ),
            PlanError::EmptyPipeline => owned("Pipeline must contain at least one stage"),
            PlanError::UnboundVariable(s) => concat5("Variable '$", s.as_str(), "' is not bound", "", ""),
            PlanError::TypeMismatch { expected, actual } => concat5(
                "Type mismatch: expected ",
                expected.as_str(),
                ", got ",
                actual.as_str(),
                "",
            ),
        }
    }
}

} // verus!

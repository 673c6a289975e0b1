//! Query building blocks: typed values, conditions, predicates, modifiers
//! and scan windows, with the semantics of matching a condition against a
//! JSON payload.
use vstd::prelude::*;
use crate::float::{f64_bits_is_nan, f64_bits_order, f64_bits_of_i64, f64_eq, f64_is_nan,
    f64_of_int, f64_order, two52, two63};
use crate::json::{
    json_as_f64, json_get, number_as_f64, number_as_i64, Json, JsonView, Number,
};
use crate::scope::Scope;
use crate::text::{
    chars_of, contains, contains_seq, copy_string, ends_with, is_prefix, is_suffix, owned,
    push_char, seq_order, starts_with, order_chars, str_eq,
};
use crate::time::Ttl;

verus! {

broadcast use vstd::string::group_string_axioms;

// ---------------------------------------------------------------------------
// Values
// ---------------------------------------------------------------------------

/// A typed value a condition compares against.
#[derive(Debug)]
pub enum Value {
    Null,
    Bool(bool),
    Int(i64),
    /// A double, as its bit pattern.
    Float(u64),
    String(String),
    Array(Vec<Value>),
    /// A reference to a pipeline variable, bound before comparison.
    Variable(String),
}

/// The mathematical value of a `Value`.
pub enum ValueView {
    Null,
    Bool(bool),
    Int(i64),
    Float(u64),
    String(Seq<char>),
    Array(Seq<ValueView>),
    Variable(Seq<char>),
}

/// The value of a `Value`.
pub open spec fn value_view(v: &Value) -> ValueView
    decreases v, 1int,
{
    match v {
        Value::Null => ValueView::Null,
        Value::Bool(b) => ValueView::Bool(*b),
        Value::Int(i) => ValueView::Int(*i),
        Value::Float(f) => ValueView::Float(*f),
        Value::String(s) => ValueView::String(s@),
        Value::Array(a) => ValueView::Array(Seq::new(a@.len(), |i: int| element_view(a@, i))),
        Value::Variable(s) => ValueView::Variable(s@),
    }
}

/// The value of the `i`-th element of an array value.
pub open spec fn element_view(a: Seq<Value>, i: int) -> ValueView
    decreases a, 0int,
{
    if 0 <= i < a.len() {
        value_view(&a[i])
    } else {
        ValueView::Null
    }
}

impl View for Value {
    type V = ValueView;

    open spec fn view(&self) -> ValueView {
        value_view(self)
    }
}

/// Whether a payload value equals a condition value: same kind and same
/// content; integers compare as `i64`, doubles as doubles (an integer
/// payload converted to a double); variables never match.
pub open spec fn value_equals(j: JsonView, v: ValueView) -> bool {
    match (j, v) {
        (JsonView::Null, ValueView::Null) => true,
        (JsonView::Bool(a), ValueView::Bool(b)) => a == b,
        (JsonView::Number(n), ValueView::Int(i)) => number_as_i64(n) == Some(i),
        (JsonView::Number(n), ValueView::Float(f)) => f64_eq(number_as_f64(n), f),
        (JsonView::String(a), ValueView::String(b)) => a == b,
        _ => false,
    }
}

/// The order of a payload value relative to a condition value (-1, 0, 1),
/// or `None` when they do not compare: integers compare exactly when the
/// payload fits an `i64`, otherwise both sides compare as doubles; strings
/// compare lexicographically.
pub open spec fn value_compare(j: JsonView, v: ValueView) -> Option<int> {
    match (j, v) {
        (JsonView::Number(n), ValueView::Int(i)) => match number_as_i64(n) {
            Some(x) => Some(if x < i { -1int } else if x > i { 1int } else { 0int }),
            None => f64_order(number_as_f64(n), f64_of_int(i as int) as u64),
        },
        (JsonView::Number(n), ValueView::Float(f)) => f64_order(number_as_f64(n), f),
        (JsonView::String(a), ValueView::String(b)) => Some(
            if seq_order(a, b) < 0 { -1int } else if seq_order(a, b) > 0 { 1int } else { 0int },
        ),
        _ => None,
    }
}

/// Whether `v` equals some element of the payload array `arr`.
pub open spec fn array_has(arr: Seq<JsonView>, v: ValueView) -> bool {
    exists|k: int| 0 <= k < arr.len() && value_equals(arr[k], v)
}

/// Whether the payload value `j` equals some element of the value array `arr`.
pub open spec fn in_values(j: JsonView, arr: Seq<ValueView>) -> bool {
    exists|k: int| 0 <= k < arr.len() && value_equals(j, arr[k])
}

/// Whether a payload value equals a condition value (`value_equals`).
pub fn json_equals_value(j: &Json, v: &Value) -> (r: bool)
    ensures
        r == value_equals(j@, v@),
{
    match (j, v) {
        (Json::Null, Value::Null) => true,
        (Json::Bool(a), Value::Bool(b)) => *a == *b,
        (Json::Number(n), Value::Int(i)) => match n.as_i64() {
            Some(x) => x == *i,
            None => false,
        },
        (Json::Number(n), Value::Float(f)) => {
            match f64_bits_order(n.as_f64_bits(), *f) {
                Some(c) => c == 0,
                None => false,
            }
        },
        (Json::String(a), Value::String(b)) => *a == *b,
        _ => false,
    }
}

fn value_compare_exec(j: &Json, v: &Value) -> (r: Option<i8>)
    ensures
        match value_compare(j@, v@) {
            None => r is None,
            Some(c) => r matches Some(x) && x as int == c,
        },
{
    match (j, v) {
        (Json::Number(n), Value::Int(i)) => match n.as_i64() {
            Some(x) => Some(if x < *i { -1 } else if x > *i { 1 } else { 0 }),
            None => f64_bits_order(n.as_f64_bits(), f64_bits_of_i64(*i)),
        },
        (Json::Number(n), Value::Float(f)) => f64_bits_order(n.as_f64_bits(), *f),
        (Json::String(a), Value::String(b)) => {
            let ac = chars_of(a.as_str());
            let bc = chars_of(b.as_str());
            Some(order_chars(&ac, &bc))
        },
        _ => None,
    }
}

impl Value {
    /// A copy of the value.
    #[verifier::loop_isolation(false)]
    pub fn copy(&self) -> (r: Value)
        ensures
            r@ == self@,
        decreases self,
    {
        match self {
            Value::Null => Value::Null,
            Value::Bool(b) => Value::Bool(*b),
            Value::Int(i) => Value::Int(*i),
            Value::Float(f) => Value::Float(*f),
            Value::String(s) => Value::String(copy_string(s)),
            Value::Variable(s) => Value::Variable(copy_string(s)),
            Value::Array(a) => {
                let mut out: Vec<Value> = Vec::new();
                let mut i: usize = 0;
                while i < a.len()
                    invariant
                        i <= a@.len(),
                        out@.len() == i,
                        forall|k: int| 0 <= k < i ==> value_view(&out@[k]) == value_view(&a@[k]),
                    decreases a@.len() - i,
                {
                    proof {
                        assert(decreases_to!(*self => self->Array_0));
                        assert(decreases_to!(self->Array_0 => self->Array_0@));
                        assert(decreases_to!(self->Array_0@ => self->Array_0@[i as int]));
                    }
                    out.push(a[i].copy());
                    i = i + 1;
                }
                let r = Value::Array(out);
                proof {
                    let x = value_view(&r)->Array_0;
                    let y = value_view(self)->Array_0;
                    assert forall|k: int| 0 <= k < x.len() implies x[k] == y[k] by {
                        assert(x[k] == element_view(out@, k));
                        assert(y[k] == element_view(a@, k));
                    }
                    assert(x =~= y);
                }
                r
            }
        }
    }

    /// Whether the value is a variable reference.
    pub fn is_variable(&self) -> (r: bool)
        ensures
            r == (self@ is Variable),
    {
        match self {
            Value::Variable(_) => true,
            _ => false,
        }
    }

    /// The variable's name, for a variable reference.
    pub fn as_variable(&self) -> (r: Option<&str>)
        ensures
            match self@ {
                ValueView::Variable(n) => r matches Some(x) && x@ == n,
                _ => r is None,
            },
    {
        match self {
            Value::Variable(v) => Some(v.as_str()),
            _ => None,
        }
    }

    /// The value as a JSON document (see `value_to_json`).
    #[verifier::loop_isolation(false)]
    pub fn to_json(&self) -> (r: Json)
        ensures
            r@ == value_to_json(self@),
        decreases self,
    {
        match self {
            Value::Null => {
                assert(self@ == ValueView::Null);
                let r = Json::Null;
                assert(value_to_json(ValueView::Null) == JsonView::Null);
                assert(r@ == JsonView::Null);
                r
            },
            Value::Bool(b) => {
                let r = Json::Bool(*b);
                assert(r@ == value_to_json(self@));
                r
            },
            Value::Int(i) => {
                let r = if *i >= 0 {
                    Json::Number(Number::PosInt(*i as u64))
                } else {
                    Json::Number(Number::NegInt(*i))
                };
                assert(r@ == value_to_json(self@));
                r
            },
            Value::Float(f) => {
                let r = if f64_bits_is_nan(*f) || *f % 0x8000_0000_0000_0000 == 0x7FF0_0000_0000_0000 {
                    Json::Null
                } else {
                    Json::Number(Number::Float(*f))
                };
                assert(r@ == value_to_json(self@));
                r
            },
            Value::String(s) => {
                let r = Json::String(copy_string(s));
                assert(r@ == value_to_json(self@));
                r
            },
            Value::Variable(v) => {
                let mut out = String::new();
                push_char(&mut out, '$');
                push_char(&mut out, '{');
                let cs = chars_of(v.as_str());
                let mut i: usize = 0;
                while i < cs.len()
                    invariant
                        i <= cs@.len(),
                        out@ == seq!['$', '{'] + cs@.take(i as int),
                    decreases cs@.len() - i,
                {
                    push_char(&mut out, cs[i]);
                    assert(cs@.take(i + 1) =~= cs@.take(i as int).push(cs@[i as int]));
                    i = i + 1;
                }
                push_char(&mut out, '}');
                assert(cs@.take(cs@.len() as int) =~= v@);
                assert(out@ =~= seq!['$', '{'] + v@ + seq!['}']);
                let r = Json::String(out);
                assert(r@ == value_to_json(self@));
                r
            },
            Value::Array(a) => {
                let mut out: Vec<Json> = Vec::new();
                let mut i: usize = 0;
                while i < a.len()
                    invariant
                        i <= a@.len(),
                        out@.len() == i,
                        forall|k: int| 0 <= k < i ==> out@[k]@ == value_to_json(value_view(&a@[k])),
                    decreases a@.len() - i,
                {
                    proof {
                        assert(decreases_to!(*self => self->Array_0));
                        assert(decreases_to!(self->Array_0 => self->Array_0@));
                        assert(decreases_to!(self->Array_0@ => self->Array_0@[i as int]));
                    }
                    out.push(a[i].to_json());
                    i = i + 1;
                }
                let r = Json::Array(out);
                proof {
                    let x = r@->Array_0;
                    let y = value_to_json(self@)->Array_0;
                    assert forall|k: int| 0 <= k < x.len() implies x[k] == y[k] by {
                        assert(x[k] == crate::json::item_view(out@, k));
                        assert(self@->Array_0[k] == element_view(a@, k));
                    }
                    assert(x =~= y);
                }
                r
            },
        }
    }
}

/// The JSON form of a value (`Value::to_json`): integers as integers,
/// finite doubles as doubles and other doubles as null, variables as the
/// string `${name}`.
pub open spec fn value_to_json(v: ValueView) -> JsonView
    decreases v,
{
    match v {
        ValueView::Null => JsonView::Null,
        ValueView::Bool(b) => JsonView::Bool(b),
        ValueView::Int(i) => JsonView::Number(
            if i >= 0 { Number::PosInt(i as u64) } else { Number::NegInt(i) },
        ),
        ValueView::Float(f) => if f64_is_nan(f) || f as nat % two63() == 0x7FF0_0000_0000_0000 {
            JsonView::Null
        } else {
            JsonView::Number(Number::Float(f))
        },
        ValueView::String(s) => JsonView::String(s),
        ValueView::Array(a) => JsonView::Array(
            Seq::new(a.len(), |i: int| if 0 <= i < a.len() { value_to_json(a[i]) } else { JsonView::Null }),
        ),
        ValueView::Variable(n) => JsonView::String(seq!['$', '{'] + n + seq!['}']),
    }
}

impl Value {
    /// A string value.
    pub fn string(s: &str) -> (r: Value)
        ensures
            r@ == ValueView::String(s@),
    {
        Value::String(owned(s))
    }
}

impl From<i64> for Value {
    fn from(i: i64) -> (r: Value) {
        Value::Int(i)
    }
}

impl vstd::std_specs::convert::FromSpecImpl<i64> for Value {
    open spec fn obeys_from_spec() -> bool {
        true
    }

    open spec fn from_spec(i: i64) -> Value {
        Value::Int(i)
    }
}

impl From<bool> for Value {
    fn from(b: bool) -> (r: Value) {
        Value::Bool(b)
    }
}

impl vstd::std_specs::convert::FromSpecImpl<bool> for Value {
    open spec fn obeys_from_spec() -> bool {
        true
    }

    open spec fn from_spec(b: bool) -> Value {
        Value::Bool(b)
    }
}

// ---------------------------------------------------------------------------
// Operators
// ---------------------------------------------------------------------------

/// Comparison operators.
#[derive(Clone, Copy, Debug, PartialEq, Eq, Structural)]
pub enum Operator {
    Eq,
    Ne,
    Gt,
    Gte,
    Lt,
    Lte,
    Contains,
    StartsWith,
    EndsWith,
    In,
}

/// Whether payload value `j` satisfies `op` against condition value `v`.
pub open spec fn operator_holds(op: Operator, j: JsonView, v: ValueView) -> bool {
    match op {
        Operator::Eq => value_equals(j, v),
        Operator::Ne => !value_equals(j, v),
        Operator::Gt => value_compare(j, v) matches Some(c) && c > 0,
        Operator::Gte => value_compare(j, v) matches Some(c) && c >= 0,
        Operator::Lt => value_compare(j, v) matches Some(c) && c < 0,
        Operator::Lte => value_compare(j, v) matches Some(c) && c <= 0,
        Operator::Contains => match (j, v) {
            (JsonView::String(s), ValueView::String(t)) => contains_seq(s, t),
            (JsonView::Array(arr), _) => array_has(arr, v),
            _ => false,
        },
        Operator::StartsWith => match (j, v) {
            (JsonView::String(s), ValueView::String(t)) => is_prefix(t, s),
            _ => false,
        },
        Operator::EndsWith => match (j, v) {
            (JsonView::String(s), ValueView::String(t)) => is_suffix(t, s),
            _ => false,
        },
        Operator::In => match v {
            ValueView::Array(arr) => in_values(j, arr),
            _ => false,
        },
    }
}

/// The operator a symbol or keyword denotes.
pub open spec fn operator_named(s: Seq<char>) -> Option<Operator> {
    if s == "="@ || s == "=="@ {
        Some(Operator::Eq)
    } else if s == "!="@ || s == "<>"@ {
        Some(Operator::Ne)
    } else if s == ">"@ {
        Some(Operator::Gt)
    } else if s == ">="@ {
        Some(Operator::Gte)
    } else if s == "<"@ {
        Some(Operator::Lt)
    } else if s == "<="@ {
        Some(Operator::Lte)
    } else if s == "CONTAINS"@ || s == "contains"@ {
        Some(Operator::Contains)
    } else if s == "STARTS_WITH"@ || s == "starts_with"@ {
        Some(Operator::StartsWith)
    } else if s == "ENDS_WITH"@ || s == "ends_with"@ {
        Some(Operator::EndsWith)
    } else if s == "IN"@ || s == "in"@ {
        Some(Operator::In)
    } else {
        None
    }
}

impl Operator {
    /// Whether payload value `json` satisfies this operator against `target`.
    pub fn compare(&self, json: &Json, target: &Value) -> (r: bool)
        ensures
            r == operator_holds(*self, json@, target@),
    {
        match self {
            Operator::Eq => json_equals_value(json, target),
            Operator::Ne => !json_equals_value(json, target),
            Operator::Gt => match value_compare_exec(json, target) {
                Some(c) => c > 0,
                None => false,
            },
            Operator::Gte => match value_compare_exec(json, target) {
                Some(c) => c >= 0,
                None => false,
            },
            Operator::Lt => match value_compare_exec(json, target) {
                Some(c) => c < 0,
                None => false,
            },
            Operator::Lte => match value_compare_exec(json, target) {
                Some(c) => c <= 0,
                None => false,
            },
            Operator::Contains => match (json, target) {
                (Json::String(s), Value::String(t)) => {
                    let sc = chars_of(s.as_str());
                    let tc = chars_of(t.as_str());
                    contains(&sc, &tc)
                },
                (Json::Array(arr), _) => {
                    let ghost av = json@->Array_0;
                    let mut k: usize = 0;
                    while k < arr.len()
                        invariant
                            k <= arr@.len(),
                            *self == Operator::Contains,
                            av == json@->Array_0,
                            json@ is Array,
                            av.len() == arr@.len(),
                            forall|m: int| 0 <= m < av.len() ==> av[m] == crate::json::item_view(arr@, m),
                            forall|m: int| 0 <= m < k ==> !value_equals(av[m], target@),
                        decreases arr@.len() - k,
                    {
                        if json_equals_value(&arr[k], target) {
                            assert(av[k as int] == arr@[k as int]@);
                            assert(value_equals(av[k as int], target@));
                            assert(array_has(av, target@));
                            return true;
                        }
                        assert(av[k as int] == arr@[k as int]@);
                        k = k + 1;
                    }
                    false
                },
                _ => false,
            },
            Operator::StartsWith => match (json, target) {
                (Json::String(s), Value::String(t)) => {
                    let sc = chars_of(s.as_str());
                    let tc = chars_of(t.as_str());
                    starts_with(&sc, &tc)
                },
                _ => false,
            },
            Operator::EndsWith => match (json, target) {
                (Json::String(s), Value::String(t)) => {
                    let sc = chars_of(s.as_str());
                    let tc = chars_of(t.as_str());
                    ends_with(&sc, &tc)
                },
                _ => false,
            },
            Operator::In => match target {
                Value::Array(arr) => {
                    let ghost av = target@->Array_0;
                    let mut k: usize = 0;
                    while k < arr.len()
                        invariant
                            k <= arr@.len(),
                            *self == Operator::In,
                            av == target@->Array_0,
                            target@ is Array,
                            av.len() == arr@.len(),
                            forall|m: int| 0 <= m < av.len() ==> av[m] == element_view(arr@, m),
                            forall|m: int| 0 <= m < k ==> !value_equals(json@, av[m]),
                        decreases arr@.len() - k,
                    {
                        if json_equals_value(json, &arr[k]) {
                            assert(av[k as int] == arr@[k as int]@);
                            assert(value_equals(json@, av[k as int]));
                            assert(in_values(json@, av));
                            return true;
                        }
                        assert(av[k as int] == arr@[k as int]@);
                        k = k + 1;
                    }
                    false
                },
                _ => false,
            },
        }
    }

    /// Parses an operator symbol or keyword.
    pub fn from_str(s: &str) -> (r: Option<Operator>)
        ensures
            r == operator_named(s@),
    {
        proof {
            reveal_strlit("=");
            reveal_strlit("==");
            reveal_strlit("!=");
            reveal_strlit("<>");
            reveal_strlit(">");
            reveal_strlit(">=");
            reveal_strlit("<");
            reveal_strlit("<=");
            reveal_strlit("CONTAINS");
            reveal_strlit("contains");
            reveal_strlit("STARTS_WITH");
            reveal_strlit("starts_with");
            reveal_strlit("ENDS_WITH");
            reveal_strlit("ends_with");
            reveal_strlit("IN");
            reveal_strlit("in");
        }
        if str_eq(s, "=") || str_eq(s, "==") {
            Some(Operator::Eq)
        } else if str_eq(s, "!=") || str_eq(s, "<>") {
            Some(Operator::Ne)
        } else if str_eq(s, ">") {
            Some(Operator::Gt)
        } else if str_eq(s, ">=") {
            Some(Operator::Gte)
        } else if str_eq(s, "<") {
            Some(Operator::Lt)
        } else if str_eq(s, "<=") {
            Some(Operator::Lte)
        } else if str_eq(s, "CONTAINS") || str_eq(s, "contains") {
            Some(Operator::Contains)
        } else if str_eq(s, "STARTS_WITH") || str_eq(s, "starts_with") {
            Some(Operator::StartsWith)
        } else if str_eq(s, "ENDS_WITH") || str_eq(s, "ends_with") {
            Some(Operator::EndsWith)
        } else if str_eq(s, "IN") || str_eq(s, "in") {
            Some(Operator::In)
        } else {
            None
        }
    }
}

// ---------------------------------------------------------------------------
// Conditions
// ---------------------------------------------------------------------------

/// One comparison of a WHERE clause: `field operator value`.
#[derive(Debug)]
pub struct Condition {
    pub field: String,
    pub operator: Operator,
    pub value: Value,
}

/// Whether payload `data` satisfies condition `c`: the payload is an object
/// with a member named by the condition's field, and that member satisfies
/// the operator against the condition's value.
pub open spec fn condition_holds(c: Condition, data: JsonView) -> bool {
    match json_get(data, c.field@) {
        Some(v) => operator_holds(c.operator, v, c.value@),
        None => false,
    }
}

/// Whether payload `data` satisfies every condition of `cs` (an empty list
/// holds of every payload).
pub open spec fn conditions_hold(cs: Seq<Condition>, data: JsonView) -> bool {
    forall|i: int| 0 <= i < cs.len() ==> #[trigger] condition_holds(cs[i], data)
}

impl Condition {
    /// A condition `field operator value`.
    pub fn new(field: &str, operator: Operator, value: Value) -> (r: Condition)
        ensures
            r.field@ == field@,
            r.operator == operator,
            r.value == value,
    {
        Condition { field: owned(field), operator, value }
    }

    /// `field = value`.
    pub fn eq(field: &str, value: Value) -> (r: Condition)
        ensures
            r.field@ == field@,
            r.operator == Operator::Eq,
            r.value == value,
    {
        Condition::new(field, Operator::Eq, value)
    }

    /// `field != value`.
    pub fn ne(field: &str, value: Value) -> (r: Condition)
        ensures
            r.field@ == field@,
            r.operator == Operator::Ne,
            r.value == value,
    {
        Condition::new(field, Operator::Ne, value)
    }

    /// `field > value`.
    pub fn gt(field: &str, value: Value) -> (r: Condition)
        ensures
            r.field@ == field@,
            r.operator == Operator::Gt,
            r.value == value,
    {
        Condition::new(field, Operator::Gt, value)
    }

    /// `field < value`.
    pub fn lt(field: &str, value: Value) -> (r: Condition)
        ensures
            r.field@ == field@,
            r.operator == Operator::Lt,
            r.value == value,
    {
        Condition::new(field, Operator::Lt, value)
    }

    /// Whether a payload satisfies this condition.
    pub fn matches(&self, data: &Json) -> (r: bool)
        ensures
            r == condition_holds(*self, data@),
    {
        match data.get(self.field.as_str()) {
            Some(v) => self.operator.compare(v, &self.value),
            None => false,
        }
    }

    /// A copy of the condition.
    pub fn copy(&self) -> (r: Condition)
        ensures
            r.field@ == self.field@,
            r.operator == self.operator,
            r.value@ == self.value@,
    {
        Condition { field: copy_string(&self.field), operator: self.operator, value: self.value.copy() }
    }
}

/// Whether a payload satisfies every condition of a list.
pub fn all_conditions_hold(conditions: &Vec<Condition>, data: &Json) -> (r: bool)
    ensures
        r == conditions_hold(conditions@, data@),
{
    let mut i: usize = 0;
    while i < conditions.len()
        invariant
            i <= conditions@.len(),
            forall|k: int| 0 <= k < i ==> #[trigger] condition_holds(conditions@[k], data@),
        decreases conditions@.len() - i,
    {
        if !conditions[i].matches(data) {
            return false;
        }
        i = i + 1;
    }
    true
}

// ---------------------------------------------------------------------------
// Predicates
// ---------------------------------------------------------------------------

/// Which records a query selects.
#[derive(Debug)]
pub enum Predicate {
    /// Records whose payload satisfies every condition.
    Where { conditions: Vec<Condition> },
    /// Exact lookup of a field (`id` names the record key).
    Key { field: String, value: Value },
    /// Similarity to the embedding bound to a variable.
    Like { embedding_var: String },
    /// Match against the pattern bound to a variable, with an optional
    /// threshold (an `f32`, as its bit pattern).
    Pattern { pattern_var: String, threshold: Option<u32> },
    /// Every record.
    All,
}

impl Predicate {
    /// `WHERE field = value`.
    pub fn where_eq(field: &str, value: Value) -> (r: Predicate)
        ensures
            r matches Predicate::Where { conditions } && conditions@.len() == 1
                && conditions@[0].field@ == field@ && conditions@[0].operator == Operator::Eq
                && conditions@[0].value == value,
    {
        let mut conditions: Vec<Condition> = Vec::new();
        conditions.push(Condition::new(field, Operator::Eq, value));
        Predicate::Where { conditions }
    }

    /// `KEY field = value`.
    pub fn key(field: &str, value: Value) -> (r: Predicate)
        ensures
            r matches Predicate::Key { field: f, value: v } && f@ == field@ && v == value,
    {
        Predicate::Key { field: owned(field), value }
    }

    /// `LIKE $embedding_var`.
    pub fn like(embedding_var: &str) -> (r: Predicate)
        ensures
            r matches Predicate::Like { embedding_var: e } && e@ == embedding_var@,
    {
        Predicate::Like { embedding_var: owned(embedding_var) }
    }

    /// `PATTERN $pattern_var [THRESHOLD t]`.
    pub fn pattern(pattern_var: &str, threshold: Option<u32>) -> (r: Predicate)
        ensures
            r matches Predicate::Pattern { pattern_var: p, threshold: t } && p@ == pattern_var@
                && t == threshold,
    {
        Predicate::Pattern { pattern_var: owned(pattern_var), threshold }
    }

    /// `ALL`.
    pub fn all() -> (r: Predicate)
        ensures
            r is All,
    {
        Predicate::All
    }

    /// Whether evaluating the predicate needs an embedding.
    pub fn requires_embedding(&self) -> (r: bool)
        ensures
            r == (self is Like),
    {
        match self {
            Predicate::Like { .. } => true,
            _ => false,
        }
    }

    /// Whether evaluating the predicate needs pattern matching.
    pub fn requires_pattern_match(&self) -> (r: bool)
        ensures
            r == (self is Pattern),
    {
        match self {
            Predicate::Pattern { .. } => true,
            _ => false,
        }
    }
}

impl Default for Predicate {
    fn default() -> (r: Predicate)
        ensures
            r is All,
    {
        Predicate::All
    }
}

// ---------------------------------------------------------------------------
// Modifiers
// ---------------------------------------------------------------------------

/// Sort order: a payload field, ascending or descending.
#[derive(Debug)]
pub struct OrderBy {
    pub field: String,
    pub ascending: bool,
}

impl OrderBy {
    /// Ascending order on `field`.
    pub fn asc(field: &str) -> (r: OrderBy)
        ensures
            r.field@ == field@,
            r.ascending,
    {
        OrderBy { field: owned(field), ascending: true }
    }

    /// Descending order on `field`.
    pub fn desc(field: &str) -> (r: OrderBy)
        ensures
            r.field@ == field@,
            !r.ascending,
    {
        OrderBy { field: owned(field), ascending: false }
    }
}

/// Aggregate functions.
#[derive(Clone, Copy, Debug, PartialEq, Eq, Structural)]
pub enum AggregateFuncType {
    Count,
    Sum,
    Avg,
    Min,
    Max,
}

/// One aggregate of a query: a function over a field (none for `COUNT(*)`),
/// with an optional alias for its result.
#[derive(Debug)]
pub struct AggregateFunc {
    pub func: AggregateFuncType,
    pub field: Option<String>,
    pub alias: Option<String>,
}

/// The window of a SCAN.
#[derive(Debug)]
pub enum Window {
    /// The last `count` records.
    LastN { count: usize },
    /// The records created within the span before now.
    LastDuration { duration: Ttl },
    /// The `count` records with the greatest values of `field`.
    TopBy { count: usize, field: String },
    /// The records from the first one satisfying the condition on.
    Since { condition: Condition },
}

impl Window {
    /// `WINDOW LAST count`.
    pub fn last_n(count: usize) -> (r: Window)
        ensures
            r == (Window::LastN { count }),
    {
        Window::LastN { count }
    }

    /// `WINDOW LAST duration`.
    pub fn last_duration(duration: Ttl) -> (r: Window)
        ensures
            r == (Window::LastDuration { duration }),
    {
        Window::LastDuration { duration }
    }

    /// `WINDOW TOP count BY field`.
    pub fn top_by(count: usize, field: &str) -> (r: Window)
        ensures
            r matches Window::TopBy { count: c, field: f } && c == count && f@ == field@,
    {
        Window::TopBy { count, field: owned(field) }
    }

    /// `WINDOW SINCE condition`.
    pub fn since(condition: Condition) -> (r: Window)
        ensures
            r == (Window::Since { condition }),
    {
        Window::Since { condition }
    }
}

/// Which links to return with each record.
#[derive(Debug)]
pub enum WithLinks {
    All,
    Type { link_type: String },
}

/// Links to follow from the results to further records.
#[derive(Debug)]
pub struct FollowLinks {
    pub link_type: String,
    /// Maximum depth; one when absent.
    pub depth: Option<u32>,
}

/// Query modifiers.
#[derive(Debug)]
pub struct Modifiers {
    pub limit: Option<usize>,
    pub order_by: Option<OrderBy>,
    pub return_fields: Option<Vec<String>>,
    pub timeout: Option<Ttl>,
    /// Minimum confidence or similarity (an `f32`, as its bit pattern).
    pub min_confidence: Option<u32>,
    pub scope: Option<Scope>,
    pub namespace: Option<String>,
    pub ttl: Option<Ttl>,
    pub aggregate: Option<Vec<AggregateFunc>>,
    pub having: Option<Vec<Condition>>,
    pub window: Option<Window>,
    pub with_links: Option<WithLinks>,
    pub follow_links: Option<FollowLinks>,
}

/// Modifiers with every field absent.
pub open spec fn no_modifiers(m: Modifiers) -> bool {
    &&& m.limit is None
    &&& m.order_by is None
    &&& m.return_fields is None
    &&& m.timeout is None
    &&& m.min_confidence is None
    &&& m.scope is None
    &&& m.namespace is None
    &&& m.ttl is None
    &&& m.aggregate is None
    &&& m.having is None
    &&& m.window is None
    &&& m.with_links is None
    &&& m.follow_links is None
}

impl Default for Modifiers {
    fn default() -> (r: Modifiers)
        ensures
            no_modifiers(r),
    {
        Modifiers {
            limit: None,
            order_by: None,
            return_fields: None,
            timeout: None,
            min_confidence: None,
            scope: None,
            namespace: None,
            ttl: None,
            aggregate: None,
            having: None,
            window: None,
            with_links: None,
            follow_links: None,
        }
    }
}

impl Modifiers {
    /// Modifiers with only a limit.
    pub fn with_limit(limit: usize) -> (r: Modifiers)
        ensures
            r.limit == Some(limit),
            no_modifiers(Modifiers { limit: None, ..r }),
    {
        let mut m = Modifiers::default();
        m.limit = Some(limit);
        m
    }

    /// These modifiers, ordered by `field`.
    pub fn order_by(self, field: &str, ascending: bool) -> (r: Modifiers)
        ensures
            r.order_by matches Some(o) && o.field@ == field@ && o.ascending == ascending,
            r == (Modifiers { order_by: r.order_by, ..self }),
    {
        let mut m = self;
        m.order_by = Some(OrderBy { field: owned(field), ascending });
        m
    }

    /// These modifiers, with a timeout.
    pub fn timeout(self, timeout: Ttl) -> (r: Modifiers)
        ensures
            r == (Modifiers { timeout: Some(timeout), ..self }),
    {
        let mut m = self;
        m.timeout = Some(timeout);
        m
    }

    /// These modifiers, with a minimum confidence (an `f32` bit pattern).
    pub fn min_confidence(self, confidence: u32) -> (r: Modifiers)
        ensures
            r == (Modifiers { min_confidence: Some(confidence), ..self }),
    {
        let mut m = self;
        m.min_confidence = Some(confidence);
        m
    }
}

// ---------------------------------------------------------------------------
// Values of conditions and predicates
// ---------------------------------------------------------------------------

/// The value of a condition.
pub struct ConditionView {
    pub field: Seq<char>,
    pub operator: Operator,
    pub value: ValueView,
}

impl View for Condition {
    type V = ConditionView;

    open spec fn view(&self) -> ConditionView {
        ConditionView { field: self.field@, operator: self.operator, value: self.value@ }
    }
}

/// The value of a predicate.
pub enum PredicateView {
    Where { conditions: Seq<ConditionView> },
    Key { field: Seq<char>, value: ValueView },
    Like { embedding_var: Seq<char> },
    Pattern { pattern_var: Seq<char>, threshold: Option<u32> },
    All,
}

/// The values of a list of conditions.
pub open spec fn condition_views(c: Seq<Condition>) -> Seq<ConditionView> {
    c.map_values(|x: Condition| x@)
}

impl View for Predicate {
    type V = PredicateView;

    open spec fn view(&self) -> PredicateView {
        match self {
            Predicate::Where { conditions } => PredicateView::Where { conditions: condition_views(conditions@) },
            Predicate::Key { field, value } => PredicateView::Key { field: field@, value: value@ },
            Predicate::Like { embedding_var } => PredicateView::Like { embedding_var: embedding_var@ },
            Predicate::Pattern { pattern_var, threshold } => PredicateView::Pattern {
                pattern_var: pattern_var@,
                threshold: *threshold,
            },
            Predicate::All => PredicateView::All,
        }
    }
}

/// Copies of a list of conditions.
pub fn copy_conditions(c: &Vec<Condition>) -> (r: Vec<Condition>)
    ensures
        condition_views(r@) == condition_views(c@),
{
    let mut out: Vec<Condition> = Vec::new();
    let mut i: usize = 0;
    while i < c.len()
        invariant
            i <= c@.len(),
            condition_views(out@) == condition_views(c@).take(i as int),
        decreases c@.len() - i,
    {
        let x = c[i].copy();
        let ghost before = condition_views(out@);
        out.push(x);
        assert(condition_views(out@) =~= before.push(c@[i as int]@));
        assert(condition_views(c@).take(i + 1) =~= condition_views(c@).take(i as int).push(c@[i as int]@));
        i = i + 1;
    }
    assert(condition_views(c@).take(c@.len() as int) =~= condition_views(c@));
    out
}

impl Predicate {
    /// A copy of the predicate.
    pub fn copy(&self) -> (r: Predicate)
        ensures
            r@ == self@,
    {
        match self {
            Predicate::Where { conditions } => Predicate::Where { conditions: copy_conditions(conditions) },
            Predicate::Key { field, value } => Predicate::Key { field: copy_string(field), value: value.copy() },
            Predicate::Like { embedding_var } => Predicate::Like { embedding_var: copy_string(embedding_var) },
            Predicate::Pattern { pattern_var, threshold } => Predicate::Pattern {
                pattern_var: copy_string(pattern_var),
                threshold: *threshold,
            },
            Predicate::All => Predicate::All,
        }
    }
}

// ---------------------------------------------------------------------------
// Laws of the order operators
// ---------------------------------------------------------------------------

/// The JSON number an `i64` is written as.
pub open spec fn int_number(x: i64) -> JsonView {
    if x >= 0 {
        JsonView::Number(Number::PosInt(x as u64))
    } else {
        JsonView::Number(Number::NegInt(x))
    }
}

/// The order operators agree with one another on every payload value and
/// condition value.  When the two compare, `<=` holds exactly when `>`
/// does not, and `>=` exactly when `<` does not; a value equal to the bound
/// satisfies `<=` and `>=` and neither `<` nor `>`; a value below it
/// satisfies `<` and `<=` only, and one above it `>` and `>=` only.  When
/// they do not compare, none of the four holds.
pub proof fn lemma_order_operators(j: JsonView, v: ValueView)
    ensures
        value_compare(j, v) is Some ==> (operator_holds(Operator::Lte, j, v) == !operator_holds(Operator::Gt, j, v)),
        value_compare(j, v) is Some ==> (operator_holds(Operator::Gte, j, v) == !operator_holds(Operator::Lt, j, v)),
        value_compare(j, v) == Some(0int) ==> {
            &&& operator_holds(Operator::Lte, j, v)
            &&& operator_holds(Operator::Gte, j, v)
            &&& !operator_holds(Operator::Lt, j, v)
            &&& !operator_holds(Operator::Gt, j, v)
        },
        value_compare(j, v) == Some(-1int) ==> {
            &&& operator_holds(Operator::Lt, j, v)
            &&& operator_holds(Operator::Lte, j, v)
            &&& !operator_holds(Operator::Gt, j, v)
            &&& !operator_holds(Operator::Gte, j, v)
        },
        value_compare(j, v) == Some(1int) ==> {
            &&& operator_holds(Operator::Gt, j, v)
            &&& operator_holds(Operator::Gte, j, v)
            &&& !operator_holds(Operator::Lt, j, v)
            &&& !operator_holds(Operator::Lte, j, v)
        },
        value_compare(j, v) is None ==> {
            &&& !operator_holds(Operator::Lt, j, v)
            &&& !operator_holds(Operator::Lte, j, v)
            &&& !operator_holds(Operator::Gt, j, v)
            &&& !operator_holds(Operator::Gte, j, v)
        },
{
    lemma_compare_sign(j, v);
}

/// A comparison gives -1, 0 or 1, or nothing.
proof fn lemma_compare_sign(j: JsonView, v: ValueView)
    ensures
        value_compare(j, v) matches Some(c) ==> (c == -1 || c == 0 || c == 1),
{
}

/// An integer payload compares with an integer bound as the integers do:
/// below, equal or above.  So `priority <= 5` holds of a payload with
/// priority 5, and `priority < 5` does not.
pub proof fn lemma_int_compare(x: i64, i: i64)
    ensures
        value_compare(int_number(x), ValueView::Int(i)) == Some(if x < i { -1int } else if x > i { 1int } else { 0int }),
        operator_holds(Operator::Lte, int_number(x), ValueView::Int(i)) == (x <= i),
        operator_holds(Operator::Lt, int_number(x), ValueView::Int(i)) == (x < i),
        operator_holds(Operator::Gte, int_number(x), ValueView::Int(i)) == (x >= i),
        operator_holds(Operator::Gt, int_number(x), ValueView::Int(i)) == (x > i),
{
}

/// Equality and inequality are each other's negation, and an integer or a
/// text payload equals a condition value of its kind exactly when the two
/// are the same.
pub proof fn lemma_equality_operators(j: JsonView, v: ValueView, x: i64, i: i64, a: Seq<char>, b: Seq<char>)
    ensures
        operator_holds(Operator::Ne, j, v) == !operator_holds(Operator::Eq, j, v),
        operator_holds(Operator::Eq, int_number(x), ValueView::Int(i)) == (x == i),
        operator_holds(Operator::Eq, JsonView::String(a), ValueView::String(b)) == (a == b),
{
}

/// The text operators find what they name: a text starts with its
/// prefix, ends with its suffix and contains any piece of it; and `IN`
/// holds of a payload equal to some element of the list.
pub proof fn lemma_text_operators(t: Seq<char>, u: Seq<char>, w: Seq<char>, j: JsonView, arr: Seq<ValueView>, k: int)
    ensures
        operator_holds(Operator::StartsWith, JsonView::String(t + u), ValueView::String(t)),
        operator_holds(Operator::EndsWith, JsonView::String(u + t), ValueView::String(t)),
        operator_holds(Operator::Contains, JsonView::String(u + t + w), ValueView::String(t)),
        0 <= k < arr.len() && value_equals(j, arr[k]) ==> operator_holds(Operator::In, j, ValueView::Array(arr)),
{
    assert((t + u).subrange(0, t.len() as int) =~= t);
    assert((u + t).subrange((u + t).len() - t.len(), (u + t).len() as int) =~= t);
    assert((u + t + w).subrange(u.len() as int, (u.len() + t.len()) as int) =~= t);
    assert(crate::text::occurs_at(t, u + t + w, u.len() as int));
}

} // verus!

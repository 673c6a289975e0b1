//! JSON payloads.
//!
//! Record payloads are JSON documents.  The library holds them in its own
//! tree type; numbers keep the three shapes a JSON number can take
//! (non-negative integer, negative integer, double), doubles as their bit
//! patterns.  Object members keep their keys unique.
use vstd::prelude::*;
use crate::float::{f64_bits_of_i64, f64_bits_of_u64, f64_of_int, f64_of_nat};
use crate::text::{copy_string, str_eq};

verus! {

/// A JSON number.
#[derive(Clone, Copy, Debug, PartialEq, Eq, Structural)]
pub enum Number {
    /// A non-negative integer.
    PosInt(u64),
    /// A negative integer.
    NegInt(i64),
    /// A double, as its bit pattern.
    Float(u64),
}

/// A JSON document.
#[derive(Debug)]
pub enum Json {
    Null,
    Bool(bool),
    Number(Number),
    String(String),
    Array(Vec<Json>),
    /// Members in order; keys are unique.
    Object(Vec<(String, Json)>),
}

/// The mathematical value of a JSON document.
pub enum JsonView {
    Null,
    Bool(bool),
    Number(Number),
    String(Seq<char>),
    Array(Seq<JsonView>),
    Object(Seq<(Seq<char>, JsonView)>),
}

/// The value of a document.
pub open spec fn json_view(j: &Json) -> JsonView
    decreases j, 1int,
{
    match j {
        Json::Null => JsonView::Null,
        Json::Bool(b) => JsonView::Bool(*b),
        Json::Number(n) => JsonView::Number(*n),
        Json::String(s) => JsonView::String(s@),
        Json::Array(v) => JsonView::Array(Seq::new(v@.len(), |i: int| item_view(v@, i))),
        Json::Object(m) => JsonView::Object(Seq::new(m@.len(), |i: int| member_view(m@, i))),
    }
}

/// The value of the `i`-th item of an array.
pub open spec fn item_view(v: Seq<Json>, i: int) -> JsonView
    decreases v, 0int,
{
    if 0 <= i < v.len() {
        json_view(&v[i])
    } else {
        JsonView::Null
    }
}

/// The key and value of the `i`-th member of an object.
pub open spec fn member_view(m: Seq<(String, Json)>, i: int) -> (Seq<char>, JsonView)
    decreases m, 0int,
{
    if 0 <= i < m.len() {
        (m[i].0@, json_view(&m[i].1))
    } else {
        (Seq::empty(), JsonView::Null)
    }
}

impl View for Json {
    type V = JsonView;

    open spec fn view(&self) -> JsonView {
        json_view(self)
    }
}

/// Index of the first member of `m` with key `k`, if any.
pub open spec fn member_index(m: Seq<(Seq<char>, JsonView)>, k: Seq<char>) -> Option<int>
    decreases m.len(),
{
    if m.len() == 0 {
        None
    } else if m[0].0 == k {
        Some(0)
    } else {
        match member_index(m.drop_first(), k) {
            Some(i) => Some(i + 1),
            None => None,
        }
    }
}

/// The member of an object named `k` (`Value::get` with a key).
pub open spec fn json_get(j: JsonView, k: Seq<char>) -> Option<JsonView> {
    match j {
        JsonView::Object(m) => match member_index(m, k) {
            Some(i) => Some(m[i].1),
            None => None,
        },
        _ => None,
    }
}

/// `Value::as_str`.
pub open spec fn json_as_str(j: JsonView) -> Option<Seq<char>> {
    match j {
        JsonView::String(s) => Some(s),
        _ => None,
    }
}

/// `Value::as_bool`.
pub open spec fn json_as_bool(j: JsonView) -> Option<bool> {
    match j {
        JsonView::Bool(b) => Some(b),
        _ => None,
    }
}

/// `Number::as_i64`.
pub open spec fn number_as_i64(n: Number) -> Option<i64> {
    match n {
        Number::PosInt(u) => if u <= i64::MAX { Some(u as i64) } else { None },
        Number::NegInt(i) => Some(i),
        Number::Float(_) => None,
    }
}

/// `Number::as_u64`.
pub open spec fn number_as_u64(n: Number) -> Option<u64> {
    match n {
        Number::PosInt(u) => Some(u),
        Number::NegInt(i) => if i >= 0 { Some(i as u64) } else { None },
        Number::Float(_) => None,
    }
}

/// `Number::as_f64`, as a bit pattern.
pub open spec fn number_as_f64(n: Number) -> u64 {
    match n {
        Number::PosInt(u) => f64_of_nat(u as nat) as u64,
        Number::NegInt(i) => f64_of_int(i as int) as u64,
        Number::Float(b) => b,
    }
}

/// `Value::as_i64`.
pub open spec fn json_as_i64(j: JsonView) -> Option<i64> {
    match j {
        JsonView::Number(n) => number_as_i64(n),
        _ => None,
    }
}

/// `Value::as_u64`.
pub open spec fn json_as_u64(j: JsonView) -> Option<u64> {
    match j {
        JsonView::Number(n) => number_as_u64(n),
        _ => None,
    }
}

/// `Value::as_f64`, as a bit pattern.
pub open spec fn json_as_f64(j: JsonView) -> Option<u64> {
    match j {
        JsonView::Number(n) => Some(number_as_f64(n)),
        _ => None,
    }
}

impl Number {
    /// `Number::as_i64`.
    pub fn as_i64(&self) -> (r: Option<i64>)
        ensures
            r == number_as_i64(*self),
    {
        match self {
            Number::PosInt(u) => if *u <= 0x7fff_ffff_ffff_ffff { Some(*u as i64) } else { None },
            Number::NegInt(i) => Some(*i),
            Number::Float(_) => None,
        }
    }

    /// `Number::as_u64`.
    pub fn as_u64(&self) -> (r: Option<u64>)
        ensures
            r == number_as_u64(*self),
    {
        match self {
            Number::PosInt(u) => Some(*u),
            Number::NegInt(i) => if *i >= 0 { Some(*i as u64) } else { None },
            Number::Float(_) => None,
        }
    }

    /// `Number::as_f64`, as a bit pattern.
    pub fn as_f64_bits(&self) -> (r: u64)
        ensures
            r == number_as_f64(*self),
    {
        match self {
            Number::PosInt(u) => f64_bits_of_u64(*u),
            Number::NegInt(i) => f64_bits_of_i64(*i),
            Number::Float(b) => *b,
        }
    }
}

impl Json {
    /// A copy of the document.
    #[verifier::loop_isolation(false)]
    pub fn copy(&self) -> (r: Json)
        ensures
            r@ == self@,
        decreases self,
    {
        match self {
            Json::Null => Json::Null,
            Json::Bool(b) => Json::Bool(*b),
            Json::Number(n) => Json::Number(*n),
            Json::String(s) => Json::String(copy_string(s)),
            Json::Array(v) => {
                let mut out: Vec<Json> = Vec::new();
                let mut i: usize = 0;
                while i < v.len()
                    invariant
                        i <= v@.len(),
                        out@.len() == i,
                        forall|k: int| 0 <= k < i ==> json_view(&out@[k]) == json_view(&v@[k]),
                    decreases v@.len() - i,
                {
                    proof {
                        assert(decreases_to!(*self => self->Array_0));
                        assert(decreases_to!(self->Array_0 => self->Array_0@));
                        assert(decreases_to!(self->Array_0@ => self->Array_0@[i as int]));
                    }
                    out.push(v[i].copy());
                    i = i + 1;
                }
                let r = Json::Array(out);
                proof {
                    let a = json_view(&r)->Array_0;
                    let b = json_view(self)->Array_0;
                    assert forall|k: int| 0 <= k < a.len() implies a[k] == b[k] by {
                        assert(a[k] == item_view(out@, k));
                        assert(b[k] == item_view(v@, k));
                    }
                    assert(a =~= b);
                }
                r
            }
            Json::Object(m) => {
                let mut out: Vec<(String, Json)> = Vec::new();
                let mut i: usize = 0;
                while i < m.len()
                    invariant
                        i <= m@.len(),
                        out@.len() == i,
                        forall|k: int|
                            0 <= k < i ==> out@[k].0@ == m@[k].0@ && json_view(&out@[k].1)
                                == json_view(&m@[k].1),
                    decreases m@.len() - i,
                {
                    proof {
                        assert(decreases_to!(*self => self->Object_0));
                        assert(decreases_to!(self->Object_0 => self->Object_0@));
                        assert(decreases_to!(self->Object_0@ => self->Object_0@[i as int]));
                        assert(decreases_to!(self->Object_0@[i as int] => self->Object_0@[i as int].1));
                    }
                    let (k, v) = &m[i];
                    out.push((copy_string(k), v.copy()));
                    i = i + 1;
                }
                let r = Json::Object(out);
                proof {
                    let a = json_view(&r)->Object_0;
                    let b = json_view(self)->Object_0;
                    assert forall|k: int| 0 <= k < a.len() implies a[k] == b[k] by {
                        assert(a[k] == member_view(out@, k));
                        assert(b[k] == member_view(m@, k));
                    }
                    assert(a =~= b);
                }
                r
            }
        }
    }

    /// The member named `key`, for objects (`Value::get`).
    pub fn get(&self, key: &str) -> (r: Option<&Json>)
        ensures
            match json_get(self@, key@) {
                None => r is None,
                Some(v) => r matches Some(x) && x@ == v,
            },
    {
        match self {
            Json::Object(m) => {
                let ghost mv = self@->Object_0;
                assert(self@ is Object);
                assert(mv.len() == m@.len());
                assert(forall|k: int| 0 <= k < mv.len() ==> mv[k] == member_view(m@, k));
                let mut i: usize = 0;
                while i < m.len()
                    invariant
                        i <= m@.len(),
                        mv.len() == m@.len(),
                        mv == self@->Object_0,
                        self@ is Object,
                        forall|k: int| 0 <= k < mv.len() ==> mv[k] == member_view(m@, k),
                        forall|k: int| 0 <= k < i ==> mv[k].0 != key@,
                    decreases m@.len() - i,
                {
                    if str_eq(m[i].0.as_str(), key) {
                        proof {
                            lemma_member_index_first(mv, key@, i as int);
                            assert(mv[i as int] == member_view(m@, i as int));
                        }
                        return Some(&m[i].1);
                    }
                    i = i + 1;
                }
                proof {
                    lemma_member_index_none(mv, key@);
                }
                None
            }
            _ => None,
        }
    }

    /// `Value::as_str`.
    pub fn as_str(&self) -> (r: Option<&str>)
        ensures
            match json_as_str(self@) {
                None => r is None,
                Some(s) => r matches Some(x) && x@ == s,
            },
    {
        match self {
            Json::String(s) => Some(s.as_str()),
            _ => None,
        }
    }

    /// `Value::as_bool`.
    pub fn as_bool(&self) -> (r: Option<bool>)
        ensures
            r == json_as_bool(self@),
    {
        match self {
            Json::Bool(b) => Some(*b),
            _ => None,
        }
    }

    /// `Value::as_i64`.
    pub fn as_i64(&self) -> (r: Option<i64>)
        ensures
            r == json_as_i64(self@),
    {
        match self {
            Json::Number(n) => n.as_i64(),
            _ => None,
        }
    }

    /// `Value::as_u64`.
    pub fn as_u64(&self) -> (r: Option<u64>)
        ensures
            r == json_as_u64(self@),
    {
        match self {
            Json::Number(n) => n.as_u64(),
            _ => None,
        }
    }

    /// `Value::as_f64`, as a bit pattern.
    pub fn as_f64_bits(&self) -> (r: Option<u64>)
        ensures
            r == json_as_f64(self@),
    {
        match self {
            Json::Number(n) => Some(n.as_f64_bits()),
            _ => None,
        }
    }

    /// Whether the document is an object.
    pub fn is_object(&self) -> (r: bool)
        ensures
            r == (self@ is Object),
    {
        match self {
            Json::Object(_) => true,
            _ => false,
        }
    }
}

proof fn lemma_member_index_first(m: Seq<(Seq<char>, JsonView)>, k: Seq<char>, i: int)
    requires
        0 <= i < m.len(),
        m[i].0 == k,
        forall|j: int| 0 <= j < i ==> m[j].0 != k,
    ensures
        member_index(m, k) == Some(i),
    decreases i,
{
    if i > 0 {
        lemma_member_index_first(m.drop_first(), k, i - 1);
    }
}

proof fn lemma_member_index_none(m: Seq<(Seq<char>, JsonView)>, k: Seq<char>)
    requires
        forall|j: int| 0 <= j < m.len() ==> m[j].0 != k,
    ensures
        member_index(m, k) is None,
    decreases m.len(),
{
    if m.len() > 0 {
        lemma_member_index_none(m.drop_first(), k);
    }
}

/// `member_index` finds a member with the key, and none before it.
pub proof fn lemma_member_index_found(m: Seq<(Seq<char>, JsonView)>, k: Seq<char>)
    ensures
        match member_index(m, k) {
            Some(i) => 0 <= i < m.len() && m[i].0 == k && forall|j: int| 0 <= j < i ==> m[j].0 != k,
            None => forall|j: int| 0 <= j < m.len() ==> m[j].0 != k,
        },
    decreases m.len(),
{
    if m.len() > 0 {
        lemma_member_index_found(m.drop_first(), k);
        if m[0].0 != k {
            match member_index(m.drop_first(), k) {
                Some(i) => {
                    assert forall|j: int| 0 <= j < i + 1 implies m[j].0 != k by {
                        if j > 0 {
                            assert(m[j] == m.drop_first()[j - 1]);
                        }
                    }
                }
                None => {
                    assert forall|j: int| 0 <= j < m.len() implies m[j].0 != k by {
                        if j > 0 {
                            assert(m[j] == m.drop_first()[j - 1]);
                        }
                    }
                }
            }
        }
    }
}

// ---------------------------------------------------------------------------
// Setting object members
// ---------------------------------------------------------------------------

/// The values of the members of an object.
pub open spec fn members_view(m: Seq<(String, Json)>) -> Seq<(Seq<char>, JsonView)> {
    Seq::new(m.len(), |i: int| member_view(m, i))
}

/// The members `m` with member `k` set to `v`: replaced where `k` is
/// already a key, added at the end otherwise (`Map::insert`).
pub open spec fn object_set(
    m: Seq<(Seq<char>, JsonView)>,
    k: Seq<char>,
    v: JsonView,
) -> Seq<(Seq<char>, JsonView)> {
    match member_index(m, k) {
        Some(i) => m.update(i, (k, v)),
        None => m.push((k, v)),
    }
}

/// The members `m` with every member of `u` set in turn.
pub open spec fn object_merge(
    m: Seq<(Seq<char>, JsonView)>,
    u: Seq<(Seq<char>, JsonView)>,
) -> Seq<(Seq<char>, JsonView)>
    decreases u.len(),
{
    if u.len() == 0 {
        m
    } else {
        let p = object_merge(m, u.drop_last());
        object_set(p, u.last().0, u.last().1)
    }
}

/// Sets member `key` of an object's members to `value`.
pub fn set_member(m: &mut Vec<(String, Json)>, key: String, value: Json)
    ensures
        members_view(final(m)@) == object_set(members_view(old(m)@), key@, value@),
{
    let ghost mv = members_view(m@);
    let mut i: usize = 0;
    while i < m.len()
        invariant
            i <= m@.len(),
            mv == members_view(m@),
            mv == members_view(old(m)@),
            forall|k: int| 0 <= k < i ==> mv[k].0 != key@,
        decreases m@.len() - i,
    {
        if str_eq(m[i].0.as_str(), key.as_str()) {
            proof {
                lemma_member_index_first(mv, key@, i as int);
            }
            let ghost kv = key@;
            let ghost vv = value@;
            m.set(i, (key, value));
            proof {
                assert(members_view(m@) =~= mv.update(i as int, (kv, vv)));
            }
            return;
        }
        i = i + 1;
    }
    proof {
        lemma_member_index_none(mv, key@);
    }
    let ghost kv = key@;
    let ghost vv = value@;
    m.push((key, value));
    proof {
        assert(members_view(m@) =~= mv.push((kv, vv)));
    }
}

/// Sets every member of `updates` on an object's members, in order.
pub fn merge_members(m: &mut Vec<(String, Json)>, updates: &Vec<(String, Json)>)
    ensures
        members_view(final(m)@) == object_merge(members_view(old(m)@), members_view(updates@)),
{
    let ghost m0 = members_view(m@);
    let ghost u = members_view(updates@);
    let mut i: usize = 0;
    while i < updates.len()
        invariant
            i <= updates@.len(),
            u == members_view(updates@),
            members_view(m@) == object_merge(m0, u.take(i as int)),
        decreases updates@.len() - i,
    {
        let k = copy_string(&updates[i].0);
        let v = updates[i].1.copy();
        set_member(m, k, v);
        proof {
            assert(u.take(i + 1).drop_last() =~= u.take(i as int));
            assert(u.take(i + 1).last() == u[i as int]);
            assert(u[i as int] == member_view(updates@, i as int));
        }
        i = i + 1;
    }
    assert(u.take(u.len() as int) =~= u);
}

/// The view of an object is its members' values.
pub proof fn lemma_object_view(m: Vec<(String, Json)>)
    ensures
        Json::Object(m)@ == JsonView::Object(members_view(m@)),
{
    assert(Json::Object(m)@->Object_0 =~= members_view(m@));
}

/// The values of the items of an array.
pub open spec fn items_view(v: Seq<Json>) -> Seq<JsonView> {
    Seq::new(v.len(), |i: int| item_view(v, i))
}

/// The view of an array is its items' values.
pub proof fn lemma_array_view(v: Vec<Json>)
    ensures
        Json::Array(v)@ == JsonView::Array(items_view(v@)),
{
    assert(Json::Array(v)@->Array_0 =~= items_view(v@));
}

/// Appends member `key: value` to an object's members.
pub fn push_member(m: &mut Vec<(String, Json)>, key: &str, value: Json)
    ensures
        members_view(final(m)@) == members_view(old(m)@).push((key@, value@)),
{
    let ghost before = members_view(m@);
    let ghost vv = value@;
    m.push((crate::text::owned(key), value));
    assert(members_view(m@) =~= before.push((key@, vv)));
}

/// Appends an item to an array's items.
pub fn push_item(v: &mut Vec<Json>, value: Json)
    ensures
        items_view(final(v)@) == items_view(old(v)@).push(value@),
{
    let ghost before = items_view(v@);
    let ghost vv = value@;
    v.push(value);
    assert(items_view(v@) =~= before.push(vv));
}

/// An object with the given members.
pub fn object_of(m: Vec<(String, Json)>) -> (r: Json)
    ensures
        r@ == JsonView::Object(members_view(m@)),
{
    proof {
        lemma_object_view(m);
    }
    Json::Object(m)
}

/// An array with the given items.
pub fn array_of(v: Vec<Json>) -> (r: Json)
    ensures
        r@ == JsonView::Array(items_view(v@)),
{
    proof {
        lemma_array_view(v);
    }
    Json::Array(v)
}

/// A string document.
pub fn string_of(s: &str) -> (r: Json)
    ensures
        r@ == JsonView::String(s@),
{
    Json::String(crate::text::owned(s))
}

/// A double as a JSON document: a number when finite, null otherwise
/// (`serde_json` has no non-finite numbers).
pub open spec fn json_of_f64(bits: u64) -> JsonView {
    if (bits as nat % 9_223_372_036_854_775_808) / 4_503_599_627_370_496 == 2047 {
        JsonView::Null
    } else {
        JsonView::Number(Number::Float(bits))
    }
}

/// `json_of_f64`.
pub fn json_from_f64(bits: u64) -> (r: Json)
    ensures
        r@ == json_of_f64(bits),
{
    if (bits % 0x8000_0000_0000_0000) / 0x10_0000_0000_0000 == 2047 {
        Json::Null
    } else {
        Json::Number(Number::Float(bits))
    }
}

/// An integer as a JSON document (`serde_json`'s `From<i64>`).
pub open spec fn json_of_i64(i: i64) -> JsonView {
    if i >= 0 {
        JsonView::Number(Number::PosInt(i as u64))
    } else {
        JsonView::Number(Number::NegInt(i))
    }
}

/// `json_of_i64`.
pub fn json_from_i64(i: i64) -> (r: Json)
    ensures
        r@ == json_of_i64(i),
{
    if i >= 0 {
        Json::Number(Number::PosInt(i as u64))
    } else {
        Json::Number(Number::NegInt(i))
    }
}

/// Setting member `k` of an object to `v` makes `v` what `k` reads as and
/// leaves what every other key reads as.
pub proof fn lemma_object_set_get(m: Seq<(Seq<char>, JsonView)>, k: Seq<char>, v: JsonView, k2: Seq<char>)
    ensures
        json_get(JsonView::Object(object_set(m, k, v)), k2) == if k2 == k {
            Some(v)
        } else {
            json_get(JsonView::Object(m), k2)
        },
{
    lemma_member_index_found(m, k);
    lemma_member_index_found(m, k2);
    let n = object_set(m, k, v);
    match member_index(m, k) {
        Some(i) => {
            assert(n == m.update(i, (k, v)));
            if k2 == k {
                lemma_member_index_first(n, k, i);
            } else {
                match member_index(m, k2) {
                    Some(i2) => {
                        assert(i2 != i);
                        lemma_member_index_first(n, k2, i2);
                    },
                    None => {
                        lemma_member_index_none(n, k2);
                    },
                }
            }
        },
        None => {
            assert(n == m.push((k, v)));
            if k2 == k {
                lemma_member_index_first(n, k, m.len() as int);
            } else {
                match member_index(m, k2) {
                    Some(i2) => {
                        lemma_member_index_first(n, k2, i2);
                    },
                    None => {
                        lemma_member_index_none(n, k2);
                    },
                }
            }
        },
    }
}

/// Setting the members of `u` in turn: a key reads as the value of the
/// last member of `u` with that key.
pub proof fn lemma_object_merge_get(m: Seq<(Seq<char>, JsonView)>, u: Seq<(Seq<char>, JsonView)>, n: int)
    requires
        0 <= n < u.len(),
        forall|j: int| n < j < u.len() ==> u[j].0 != u[n].0,
    ensures
        json_get(JsonView::Object(object_merge(m, u)), u[n].0) == Some(u[n].1),
    decreases u.len(),
{
    let p = object_merge(m, u.drop_last());
    lemma_object_set_get(p, u.last().0, u.last().1, u[n].0);
    if n < u.len() - 1 {
        lemma_object_merge_get(m, u.drop_last(), n);
    }
}

} // verus!

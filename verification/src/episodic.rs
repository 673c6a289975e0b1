//! Episodic memory: events kept in the order of their creation instant, to
//! the millisecond, and of their key.
use vstd::prelude::*;
use crate::backend::{backend_info_of, BackendInfo};
use crate::json::{
    json_get, members_view, merge_members, number_as_f64, object_merge, object_of, set_member, Json, JsonView, Number,
};
use crate::links::opt_str_view;
use crate::memory::{MemoryRecord, MemoryType, Metadata, MetadataView, RecordView};
use crate::order::{record_gt, record_views, sort_records, sort_stable, RecordOrder, RecordOrderView};
use crate::predicate::{
    all_conditions_hold, condition_holds, conditions_hold, AggregateFunc, AggregateFuncType, Condition,
    Modifiers, Predicate, Value, ValueView, Window,
};
use crate::records::{
    filter_records, in_namespace, in_scope, limited, namespace_of, order_by_order, records_since,
    scoped_records, since, truncate_records,
};
use crate::scope::Scope;
use crate::seqs::{lemma_filter_member, lemma_filter_step, lemma_take_all};
use crate::text::{
    chars_of, copy_string, decimal, lemma_seq_order, lemma_seq_order_trans, order_chars, owned,
    push_char, push_decimal, seq_order, str_eq,
};
use crate::float::two52;
use crate::time::{clock_now, delta_of, Timestamp, Ttl};
use crate::working::{key_index, keys_unique, lemma_key_index};

verus! {

broadcast use vstd::string::group_string_axioms;

// ---------------------------------------------------------------------------
// Key order
// ---------------------------------------------------------------------------

/// Milliseconds since the epoch of an instant, as `chrono` counts them.
pub open spec fn millis_of(t: Timestamp) -> int {
    t.secs * 1000 + t.nanos / 1_000_000
}

/// Whether event `a` comes before event `b`: created in an earlier
/// millisecond, or in the same one with a smaller key.
pub open spec fn key_lt(a: RecordView, b: RecordView) -> bool {
    ||| millis_of(a.meta.created_at) < millis_of(b.meta.created_at)
    ||| millis_of(a.meta.created_at) == millis_of(b.meta.created_at) && seq_order(a.id, b.id) < 0
}

/// `key_lt` with its arguments swapped, as a strict order for insertion.
pub open spec fn key_gt() -> spec_fn(RecordView, RecordView) -> bool {
    |a: RecordView, b: RecordView| key_lt(b, a)
}

/// The events are in key order.
pub open spec fn in_key_order(s: Seq<RecordView>) -> bool {
    forall|i: int, j: int| 0 <= i < j < s.len() ==> key_lt(s[i], s[j])
}

/// Two events are ordered one way or the other unless they share the
/// millisecond and the key.
pub proof fn lemma_key_total(a: RecordView, b: RecordView)
    ensures
        key_lt(a, b) || key_lt(b, a) || a.id == b.id,
        !(key_lt(a, b) && key_lt(b, a)),
        key_lt(a, b) ==> a.id != b.id || millis_of(a.meta.created_at) != millis_of(b.meta.created_at),
{
    lemma_seq_order(a.id, b.id);
}

/// The order of events is transitive.
pub proof fn lemma_key_trans(a: RecordView, b: RecordView, c: RecordView)
    requires
        key_lt(a, b),
        key_lt(b, c),
    ensures
        key_lt(a, c),
{
    if millis_of(a.meta.created_at) == millis_of(b.meta.created_at) && millis_of(b.meta.created_at)
        == millis_of(c.meta.created_at) {
        lemma_seq_order_trans(a.id, b.id, c.id);
    }
}

/// Whether event `a` comes after event `b`.
fn comes_after(a: &MemoryRecord, b: &MemoryRecord) -> (r: bool)
    ensures
        r == key_lt(b@, a@),
{
    let ma: i128 = a.metadata.created_at.secs as i128 * 1000 + (a.metadata.created_at.nanos / 1_000_000) as i128;
    let mb: i128 = b.metadata.created_at.secs as i128 * 1000 + (b.metadata.created_at.nanos / 1_000_000) as i128;
    if mb < ma {
        true
    } else if mb == ma {
        let ac = chars_of(a.id.as_str());
        let bc = chars_of(b.id.as_str());
        order_chars(&bc, &ac) < 0
    } else {
        false
    }
}

// ---------------------------------------------------------------------------
// Keys as text
// ---------------------------------------------------------------------------

/// The decimal text of an integer, with a minus sign when negative.
pub open spec fn int_text(i: int) -> Seq<char> {
    if i < 0 { seq!['-'] + decimal((-i) as nat) } else { decimal(i as nat) }
}

/// The text a condition value has when it names a key: strings as they
/// are, integers in decimal, `true`, `false`, `null`, and `${name}` for
/// variables.  Doubles and lists have none here.
pub open spec fn value_key_text(v: ValueView) -> Option<Seq<char>> {
    match v {
        ValueView::String(s) => Some(s),
        ValueView::Int(i) => Some(int_text(i as int)),
        ValueView::Bool(b) => Some(if b { "true"@ } else { "false"@ }),
        ValueView::Null => Some("null"@),
        ValueView::Variable(n) => Some(seq!['$', '{'] + n + seq!['}']),
        _ => None,
    }
}

/// The text of a payload value compared with a key: strings as they are,
/// integers in decimal, `true`, `false`, `null`.  Doubles, arrays and
/// objects have none here.
pub open spec fn json_key_text(j: JsonView) -> Option<Seq<char>> {
    match j {
        JsonView::String(s) => Some(s),
        JsonView::Number(Number::PosInt(u)) => Some(decimal(u as nat)),
        JsonView::Number(Number::NegInt(i)) => Some(int_text(i as int)),
        JsonView::Bool(b) => Some(if b { "true"@ } else { "false"@ }),
        JsonView::Null => Some("null"@),
        _ => None,
    }
}

/// Appends the decimal text of `i`.
pub fn push_int_text(s: &mut String, i: i64)
    ensures
        final(s)@ == old(s)@ + int_text(i as int),
{
    if i < 0 {
        push_char(s, '-');
        let mag: u128 = if i == i64::MIN { 0x8000_0000_0000_0000 } else { (-i) as u128 };
        push_decimal(s, mag);
        assert(old(s)@ + int_text(i as int) =~= old(s)@.push('-') + decimal(mag as nat));
    } else {
        push_decimal(s, i as u128);
    }
}

/// `value_key_text`.
pub(crate) fn value_key(v: &Value) -> (r: Option<String>)
    ensures
        match r {
            Some(x) => value_key_text(v@) == Some(x@),
            None => value_key_text(v@) is None,
        },
{
    proof {
        reveal_strlit("true");
        reveal_strlit("false");
        reveal_strlit("null");
    }
    match v {
        Value::String(s) => Some(copy_string(s)),
        Value::Int(i) => {
            let mut s = String::new();
            push_int_text(&mut s, *i);
            assert(s@ =~= int_text(*i as int));
            Some(s)
        },
        Value::Bool(b) => Some(if *b { owned("true") } else { owned("false") }),
        Value::Null => Some(owned("null")),
        Value::Variable(n) => {
            let mut s = String::new();
            push_char(&mut s, '$');
            push_char(&mut s, '{');
            s.append(n.as_str());
            push_char(&mut s, '}');
            assert(s@ =~= seq!['$', '{'] + n@ + seq!['}']);
            Some(s)
        },
        _ => None,
    }
}

/// `json_key_text`.
pub(crate) fn json_key(j: &Json) -> (r: Option<String>)
    ensures
        match r {
            Some(x) => json_key_text(j@) == Some(x@),
            None => json_key_text(j@) is None,
        },
{
    proof {
        reveal_strlit("true");
        reveal_strlit("false");
        reveal_strlit("null");
    }
    match j {
        Json::String(s) => Some(copy_string(s)),
        Json::Number(Number::PosInt(u)) => {
            let mut s = String::new();
            push_decimal(&mut s, *u as u128);
            assert(s@ =~= decimal(*u as nat));
            Some(s)
        },
        Json::Number(Number::NegInt(i)) => {
            let mut s = String::new();
            push_int_text(&mut s, *i);
            assert(s@ =~= int_text(*i as int));
            Some(s)
        },
        Json::Bool(b) => Some(if *b { owned("true") } else { owned("false") }),
        Json::Null => Some(owned("null")),
        _ => None,
    }
}

// ---------------------------------------------------------------------------
// Predicates and modifiers
// ---------------------------------------------------------------------------

/// Whether an event satisfies a predicate: `ALL` holds of every event,
/// `WHERE` of events whose payload satisfies every condition, `KEY id = v`
/// (or `KEY key = v`) of the event whose key is the text of `v`, `KEY field
/// = v` of events whose payload member has the same text as `v`;
/// similarity and pattern predicates hold of none.
pub open spec fn episodic_matches(r: RecordView, p: Predicate) -> bool {
    match p {
        Predicate::All => true,
        Predicate::Where { conditions } => conditions_hold(conditions@, r.data),
        Predicate::Key { field, value } => match value_key_text(value@) {
            Some(t) => if field@ == "id"@ || field@ == "key"@ {
                r.id == t
            } else {
                match json_get(r.data, field@) {
                    Some(v) => json_key_text(v) == Some(t),
                    None => false,
                }
            },
            None => false,
        },
        _ => false,
    }
}

/// Whether an event satisfies a predicate.
fn matches_predicate(record: &MemoryRecord, predicate: &Predicate) -> (r: bool)
    ensures
        r == episodic_matches(record@, *predicate),
{
    proof {
        reveal_strlit("id");
        reveal_strlit("key");
    }
    match predicate {
        Predicate::All => true,
        Predicate::Where { conditions } => all_conditions_hold(conditions, &record.data),
        Predicate::Key { field, value } => match value_key(value) {
            Some(t) => {
                if str_eq(field.as_str(), "id") || str_eq(field.as_str(), "key") {
                    str_eq(record.id.as_str(), t.as_str())
                } else {
                    match record.get(field.as_str()) {
                        Some(v) => match json_key(v) {
                            Some(x) => str_eq(x.as_str(), t.as_str()),
                            None => false,
                        },
                        None => false,
                    }
                }
            },
            None => false,
        },
        _ => false,
    }
}

/// Newest first, then in the order given.
pub open spec fn newest_first() -> RecordOrderView {
    RecordOrderView::Created { newest_first: true }
}

/// The events of a window of a query at instant `now`: the `n` newest
/// (newest first); those created no earlier than the span before `now`;
/// the `n` with the greatest field values, greatest first; or, oldest
/// first, those from the first satisfying a condition on.
pub open spec fn window_filtered(s: Seq<RecordView>, w: Window, now: Timestamp) -> Seq<RecordView> {
    match w {
        Window::LastN { count } => limited(sort_stable(s, record_gt(newest_first())), Some(count)),
        Window::LastDuration { duration } => s.filter(
            |r: RecordView| r.meta.created_at.total() >= now.total() - delta_of(duration.total()),
        ),
        Window::TopBy { count, field } => limited(
            sort_stable(
                s,
                record_gt(
                    RecordOrderView::Field {
                        field: field@,
                        swapped: false,
                        reversed: true,
                        missing_first: false,
                    },
                ),
            ),
            Some(count),
        ),
        Window::Since { condition } => since(
            sort_stable(s, record_gt(RecordOrderView::Created { newest_first: false })),
            condition,
        ),
    }
}

/// The events a query returns at instant `now`, from the matching ones:
/// scope, namespace, window, order (events without the field last; newest
/// first without an order), limit.
pub open spec fn episodic_selected(s: Seq<RecordView>, m: Modifiers, now: Timestamp) -> Seq<RecordView> {
    let s2 = in_namespace(in_scope(s, m.scope), namespace_of(m));
    let s3 = match m.window {
        Some(w) => window_filtered(s2, w, now),
        None => s2,
    };
    let s4 = match m.order_by {
        Some(o) => sort_stable(s3, record_gt(order_by_order(o.field@, o.ascending, false))),
        None => sort_stable(s3, record_gt(newest_first())),
    };
    limited(s4, m.limit)
}

/// What a lookup returns at instant `now`.
pub open spec fn episodic_lookup(s: Seq<RecordView>, p: Predicate, m: Modifiers, now: Timestamp) -> Seq<RecordView> {
    episodic_selected(s.filter(|r: RecordView| episodic_matches(r, p)), m, now)
}

/// Whether an event was created no earlier than the span before `now`.
pub open spec fn created_since(r: RecordView, now: Timestamp, d: Ttl) -> bool {
    r.meta.created_at.total() >= now.total() - delta_of(d.total())
}

/// The events of a query window at instant `now`.
fn filter_by_window(v: Vec<MemoryRecord>, w: &Window, now: Timestamp) -> (r: Vec<MemoryRecord>)
    ensures
        record_views(r@) == window_filtered(record_views(v@), *w, now),
{
    match w {
        Window::LastN { count } => {
            let order = RecordOrder::Created { newest_first: true };
            let mut sorted = sort_records(v, &order);
            truncate_records(&mut sorted, *count);
            sorted
        },
        Window::LastDuration { duration } => {
            let secs: u64 = duration.as_secs();
            let nanos: u32 = duration.subsec_nanos();
            let span: i128 = secs as i128 * 1_000_000_000 + nanos as i128;
            let delta: i128 = if span <= 9_223_372_036_854_775_807i128 * 1_000_000 {
                span
            } else {
                0
            };
            let cutoff: i128 = now.secs as i128 * 1_000_000_000 + now.nanos as i128 - delta;
            let ghost d = *duration;
            let keep = |x: &MemoryRecord| -> (b: bool)
                ensures
                    b == created_since(x@, now, d),
                {
                    let t: i128 = x.metadata.created_at.secs as i128 * 1_000_000_000
                        + x.metadata.created_at.nanos as i128;
                    t >= cutoff
                };
            let out = filter_records(&v, keep, Ghost(|r: RecordView| created_since(r, now, d)));
            proof {
                assert((|r: RecordView| created_since(r, now, d)) =~= (|r: RecordView|
                    r.meta.created_at.total() >= now.total() - delta_of(d.total())));
            }
            out
        },
        Window::TopBy { count, field } => {
            let order = RecordOrder::Field {
                field: copy_string(field),
                swapped: false,
                reversed: true,
                missing_first: false,
            };
            let mut sorted = sort_records(v, &order);
            truncate_records(&mut sorted, *count);
            sorted
        },
        Window::Since { condition } => {
            let order = RecordOrder::Created { newest_first: false };
            let sorted = sort_records(v, &order);
            records_since(sorted, condition)
        },
    }
}

/// Applies the modifiers of a query at instant `now`.
fn apply_modifiers(v: Vec<MemoryRecord>, m: &Modifiers, now: Timestamp) -> (r: Vec<MemoryRecord>)
    ensures
        record_views(r@) == episodic_selected(record_views(v@), *m, now),
{
    let v2 = scoped_records(v, m);
    let v3 = match &m.window {
        Some(w) => filter_by_window(v2, w, now),
        None => v2,
    };
    let mut v4 = match &m.order_by {
        Some(o) => {
            let order = RecordOrder::Field {
                field: copy_string(&o.field),
                swapped: false,
                reversed: !o.ascending,
                missing_first: false,
            };
            sort_records(v3, &order)
        },
        None => {
            let order = RecordOrder::Created { newest_first: true };
            sort_records(v3, &order)
        },
    };
    match m.limit {
        Some(n) => truncate_records(&mut v4, n),
        None => {},
    }
    v4
}

// ---------------------------------------------------------------------------
// Updates
// ---------------------------------------------------------------------------

/// A payload after an update with `data`: when both are objects, each
/// member of the update is set on the payload; otherwise the update
/// replaces the payload.
pub open spec fn episodic_merged(old: JsonView, data: JsonView) -> JsonView {
    match (old, data) {
        (JsonView::Object(m), JsonView::Object(u)) => JsonView::Object(object_merge(m, u)),
        _ => data,
    }
}

/// An event after an update with `data` at instant `now`.
pub open spec fn episodic_updated(r: RecordView, data: JsonView, now: Timestamp) -> RecordView {
    RecordView {
        data: episodic_merged(r.data, data),
        meta: MetadataView { version: (r.meta.version + 1) as u64, accessed_at: now, ..r.meta },
        ..r
    }
}

/// The events after an update of those satisfying `p`.
pub open spec fn episodic_after_update(s: Seq<RecordView>, p: Predicate, data: JsonView, now: Timestamp) -> Seq<RecordView> {
    s.map_values(
        |r: RecordView|
            if episodic_matches(r, p) {
                episodic_updated(r, data, now)
            } else {
                r
            },
    )
}

/// An event updated with `data` at instant `now`.
fn update_record(record: &MemoryRecord, data: &Json, now: Timestamp) -> (r: MemoryRecord)
    requires
        record.metadata.version < u64::MAX,
    ensures
        r@ == episodic_updated(record@, data@, now),
{
    let mut c = record.copy();
    let is_obj = c.data.is_object();
    match data {
        Json::Object(u) => {
            proof {
                crate::json::lemma_object_view(*u);
            }
            if is_obj {
                let mut d = Json::Null;
                std::mem::swap(&mut d, &mut c.data);
                match d {
                    Json::Object(m) => {
                        proof {
                            crate::json::lemma_object_view(m);
                        }
                        let mut m2 = m;
                        merge_members(&mut m2, u);
                        proof {
                            crate::json::lemma_object_view(m2);
                        }
                        c.data = Json::Object(m2);
                    },
                    _ => {},
                }
            } else {
                c.data = data.copy();
            }
        },
        _ => {
            c.data = data.copy();
        },
    }
    c.metadata.touch_at(now);
    c.metadata.bump_version();
    c
}

// ---------------------------------------------------------------------------
// The backend
// ---------------------------------------------------------------------------

/// The events under key `key` removed (there is at most one).
pub open spec fn without_key(s: Seq<RecordView>, key: Seq<char>) -> Seq<RecordView> {
    match key_index(s, key) {
        Some(i) => s.remove(i),
        None => s,
    }
}

/// The events with `r` stored: the event with its key replaced by it, in
/// key order.
pub open spec fn episodic_stored(s: Seq<RecordView>, r: RecordView) -> Seq<RecordView> {
    crate::order::insert_sorted(without_key(s, r.id), r, key_gt())
}

/// The value of an episodic backend.
pub struct EpisodicView {
    /// The events in key order.
    pub records: Seq<RecordView>,
}

/// Episodic memory.
pub struct EpisodicBackend {
    records: Vec<MemoryRecord>,
}

impl View for EpisodicBackend {
    type V = EpisodicView;

    closed spec fn view(&self) -> EpisodicView {
        EpisodicView { records: record_views(self.records@) }
    }
}

/// Removing one event keeps the others in key order with unique keys.
proof fn lemma_remove_keeps_order(s: Seq<RecordView>, i: int)
    requires
        0 <= i < s.len(),
        in_key_order(s),
        keys_unique(s),
    ensures
        in_key_order(s.remove(i)),
        keys_unique(s.remove(i)),
        forall|k: int| 0 <= k < s.remove(i).len() ==> s.contains(#[trigger] s.remove(i)[k]),
{
    let t = s.remove(i);
    assert forall|a: int, b: int| 0 <= a < b < t.len() implies key_lt(t[a], t[b]) && t[a].id != t[b].id by {
        let a2 = if a < i { a } else { a + 1 };
        let b2 = if b < i { b } else { b + 1 };
        assert(t[a] == s[a2] && t[b] == s[b2]);
    }
    assert forall|k: int| 0 <= k < t.len() implies s.contains(#[trigger] t[k]) by {
        let k2 = if k < i { k } else { k + 1 };
        assert(t[k] == s[k2]);
    }
}

impl EpisodicBackend {
    #[verifier::type_invariant]
    spec fn inv(self) -> bool {
        &&& in_key_order(record_views(self.records@))
        &&& keys_unique(record_views(self.records@))
    }

    /// An empty episodic memory.
    pub fn new() -> (r: EpisodicBackend)
        ensures
            r@.records == Seq::<RecordView>::empty(),
    {
        let r = EpisodicBackend { records: Vec::new() };
        assert(r@.records =~= Seq::<RecordView>::empty());
        r
    }

    /// Position of the event with key `id`.
    fn find(&self, id: &str) -> (r: Option<usize>)
        ensures
            match r {
                Some(i) => key_index(self@.records, id@) == Some(i as int),
                None => key_index(self@.records, id@) is None,
            },
    {
        proof {
            use_type_invariant(self);
            lemma_key_index(self@.records, id@);
        }
        let mut i: usize = 0;
        while i < self.records.len()
            invariant
                i <= self.records@.len(),
                keys_unique(self@.records),
                match key_index(self@.records, id@) {
                    Some(j) => 0 <= j < self@.records.len() && self@.records[j].id == id@,
                    None => forall|j: int| 0 <= j < self@.records.len() ==> self@.records[j].id != id@,
                },
                forall|k: int| 0 <= k < i ==> self@.records[k].id != id@,
            decreases self.records@.len() - i,
        {
            if str_eq(self.records[i].id.as_str(), id) {
                proof {
                    let j = key_index(self@.records, id@).unwrap();
                    if j != i as int {
                        if j < i as int {
                            assert(self@.records[j].id != self@.records[i as int].id);
                        } else {
                            assert(self@.records[i as int].id != self@.records[j].id);
                        }
                    }
                }
                return Some(i);
            }
            i = i + 1;
        }
        None
    }

    /// Stores `data` under `key` as of instant `now`, replacing the event
    /// with that key; returns a copy of the stored event.
    #[verifier::spinoff_prover]
    #[verifier::rlimit(30)]
    pub fn store_at(
        &mut self,
        key: &str,
        data: Json,
        scope: Scope,
        namespace: Option<&str>,
        ttl: Option<Ttl>,
        now: Timestamp,
    ) -> (r: MemoryRecord)
        ensures
            r@ == (RecordView {
                id: key@,
                memory_type: MemoryType::Episodic,
                data: data@,
                meta: MetadataView {
                    created_at: now,
                    accessed_at: now,
                    scope,
                    namespace: opt_str_view(namespace),
                    ttl,
                    version: 1,
                },
            }),
            final(self)@.records == episodic_stored(old(self)@.records, r@),
    {
        proof {
            use_type_invariant(&*self);
        }
        let mut metadata = Metadata::new_at(scope, now);
        metadata.namespace = match namespace {
            Some(n) => Some(owned(n)),
            None => None,
        };
        metadata.ttl = ttl;
        let record = MemoryRecord { id: owned(key), memory_type: MemoryType::Episodic, data, metadata };
        let out = record.copy();
        let found = self.find(key);
        let ghost s0 = self@.records;
        let mut records = Vec::new();
        std::mem::swap(&mut records, &mut self.records);
        match found {
            Some(i) => {
                let ghost before = record_views(records@);
                let _old = records.remove(i);
                proof {
                    assert(record_views(records@) =~= before.remove(i as int));
                    lemma_remove_keeps_order(s0, i as int);
                }
            },
            None => {},
        }
        let ghost s1 = record_views(records@);
        proof {
            lemma_key_index(s0, key@);
            assert(s1 == without_key(s0, key@));
            assert forall|k: int| 0 <= k < s1.len() implies s1[k].id != key@ by {
                if let Some(i) = found {
                    let k2 = if k < i as int { k } else { k + 1 };
                    assert(s1[k] == s0[k2]);
                    if k2 != i as int {
                        if k2 < i as int {
                            assert(s0[k2].id != s0[i as int].id);
                        } else {
                            assert(s0[i as int].id != s0[k2].id);
                        }
                    }
                }
            }
        }
        let mut j: usize = records.len();
        while j > 0 && comes_after(&records[j - 1], &record)
            invariant
                j <= records@.len(),
                s1 == record_views(records@),
                record@ == out@,
                forall|k: int| j <= k < s1.len() ==> #[trigger] key_gt()(s1[k], record@),
            decreases j,
        {
            j = j - 1;
        }
        proof {
            if j > 0 {
                assert(!key_gt()(s1[j - 1], record@));
            }
            crate::order::lemma_insert_at(s1, record@, key_gt(), j as int);
        }
        records.insert(j, record);
        proof {
            let s2 = record_views(records@);
            assert(s2 =~= s1.insert(j as int, out@));
            if j > 0 {
                lemma_key_total(s1[j - 1], out@);
            }
            assert forall|a: int, b: int| 0 <= a < b < s2.len() implies key_lt(s2[a], s2[b]) && s2[a].id != s2[b].id by {
                let ja = j as int;
                if a < ja && b < ja {
                    assert(s2[a] == s1[a] && s2[b] == s1[b]);
                } else if a < ja && b == ja {
                    if a < ja - 1 {
                        lemma_key_trans(s1[a], s1[ja - 1], out@);
                    }
                } else if a < ja && b > ja {
                    assert(s2[b] == s1[b - 1]);
                } else if a == ja {
                    assert(s2[b] == s1[b - 1]);
                    assert(key_gt()(s1[b - 1], out@));
                } else {
                    assert(s2[a] == s1[a - 1] && s2[b] == s1[b - 1]);
                }
            }
        }
        self.records = records;
        out
    }

    /// Stores `data` under `key` now (see `store_at`).
    pub fn store(
        &mut self,
        key: &str,
        data: Json,
        scope: Scope,
        namespace: Option<&str>,
        ttl: Option<Ttl>,
    ) -> (r: MemoryRecord)
        ensures
            r@.id == key@,
            r@.memory_type == MemoryType::Episodic,
            r@.data == data@,
            r@.meta == (MetadataView {
                created_at: r@.meta.created_at,
                accessed_at: r@.meta.created_at,
                scope,
                namespace: opt_str_view(namespace),
                ttl,
                version: 1,
            }),
            final(self)@.records == episodic_stored(old(self)@.records, r@),
    {
        let now = clock_now();
        self.store_at(key, data, scope, namespace, ttl, now)
    }

    /// The events a lookup finds at instant `now` (see `episodic_lookup`).
    pub fn lookup_at(&self, predicate: &Predicate, modifiers: &Modifiers, now: Timestamp) -> (r: Vec<MemoryRecord>)
        ensures
            record_views(r@) == episodic_lookup(self@.records, *predicate, *modifiers, now),
    {
        let keep = |x: &MemoryRecord| -> (b: bool)
            ensures
                b == episodic_matches(x@, *predicate),
            { matches_predicate(x, predicate) };
        let found = filter_records(&self.records, keep, Ghost(|r: RecordView| episodic_matches(r, *predicate)));
        apply_modifiers(found, modifiers, now)
    }

    /// The events a lookup finds now.
    pub fn lookup(&self, predicate: &Predicate, modifiers: &Modifiers) -> (r: Vec<MemoryRecord>)
        ensures
            exists|now: Timestamp|
                now.wf() && record_views(r@) == episodic_lookup(self@.records, *predicate, *modifiers, now),
    {
        let now = clock_now();
        self.lookup_at(predicate, modifiers, now)
    }

    /// A recall in episodic memory is a lookup.
    pub fn recall(&self, predicate: &Predicate, modifiers: &Modifiers) -> (r: Vec<MemoryRecord>)
        ensures
            exists|now: Timestamp|
                now.wf() && record_views(r@) == episodic_lookup(self@.records, *predicate, *modifiers, now),
    {
        self.lookup(predicate, modifiers)
    }

    /// Updates the events satisfying `predicate` with `data` at instant
    /// `now`; returns how many were updated.
    pub fn update_at(&mut self, predicate: &Predicate, data: &Json, now: Timestamp) -> (r: u64)
        requires
            forall|i: int|
                0 <= i < old(self)@.records.len() && episodic_matches(#[trigger] old(self)@.records[i], *predicate)
                    ==> old(self)@.records[i].meta.version < u64::MAX,
        ensures
            final(self)@.records == episodic_after_update(old(self)@.records, *predicate, data@, now),
            r == old(self)@.records.filter(|x: RecordView| episodic_matches(x, *predicate)).len(),
    {
        proof {
            use_type_invariant(&*self);
        }
        let ghost s = self@.records;
        let ghost p = |x: RecordView| episodic_matches(x, *predicate);
        let mut records = Vec::new();
        std::mem::swap(&mut records, &mut self.records);
        let mut count: u64 = 0;
        let mut i: usize = 0;
        while i < records.len()
            invariant
                i <= records@.len(),
                records@.len() == s.len(),
                p == (|x: RecordView| episodic_matches(x, *predicate)),
                forall|k: int| 0 <= k < i ==> #[trigger] record_views(records@)[k] == episodic_after_update(s, *predicate, data@, now)[k],
                forall|k: int| i <= k < s.len() ==> #[trigger] record_views(records@)[k] == s[k],
                forall|k: int| 0 <= k < s.len() && episodic_matches(#[trigger] s[k], *predicate) ==> s[k].meta.version < u64::MAX,
                count == s.take(i as int).filter(p).len(),
                count <= i,
            decreases records@.len() - i,
        {
            let hit = matches_predicate(&records[i], predicate);
            proof {
                assert(record_views(records@)[i as int] == s[i as int]);
                assert(p(s[i as int]) == hit);
                lemma_filter_step(s, p, i as int);
            }
            let ghost w = episodic_after_update(s, *predicate, data@, now);
            assert(w[i as int] == if hit { episodic_updated(s[i as int], data@, now) } else { s[i as int] });
            let ghost before = record_views(records@);
            if hit {
                let u = update_record(&records[i], data, now);
                records.set(i, u);
                count = count + 1;
                assert(record_views(records@) =~= before.update(i as int, w[i as int]));
            }
            i = i + 1;
        }
        proof {
            lemma_take_all(s);
            let ns = record_views(records@);
            assert(ns =~= episodic_after_update(s, *predicate, data@, now));
            assert forall|a: int, b: int| 0 <= a < b < ns.len() implies key_lt(ns[a], ns[b]) && ns[a].id != ns[b].id by {
                assert(key_lt(s[a], s[b]) && s[a].id != s[b].id);
            }
        }
        self.records = records;
        count
    }

    /// Updates the events satisfying `predicate` with `data` now.
    pub fn update(&mut self, predicate: &Predicate, data: &Json) -> (r: u64)
        requires
            forall|i: int|
                0 <= i < old(self)@.records.len() && episodic_matches(#[trigger] old(self)@.records[i], *predicate)
                    ==> old(self)@.records[i].meta.version < u64::MAX,
        ensures
            exists|now: Timestamp|
                now.wf() && final(self)@.records == episodic_after_update(old(self)@.records, *predicate, data@, now),
            r == old(self)@.records.filter(|x: RecordView| episodic_matches(x, *predicate)).len(),
    {
        let now = clock_now();
        self.update_at(predicate, data, now)
    }

    /// Removes the events satisfying `predicate`; returns how many.
    pub fn forget(&mut self, predicate: &Predicate) -> (r: u64)
        ensures
            final(self)@.records == old(self)@.records.filter(|x: RecordView| !episodic_matches(x, *predicate)),
            r == old(self)@.records.len() - final(self)@.records.len(),
    {
        proof {
            use_type_invariant(&*self);
        }
        let ghost s = self@.records;
        let ghost p = |x: RecordView| !episodic_matches(x, *predicate);
        let keep = |x: &MemoryRecord| -> (b: bool)
            ensures
                b == !episodic_matches(x@, *predicate),
            { !matches_predicate(x, predicate) };
        let kept = filter_records(&self.records, keep, Ghost(p));
        proof {
            broadcast use vstd::seq_lib::group_filter_ensures;
            assert(record_views(kept@).len() <= s.len());
            lemma_filter_keeps_order(s, p);
        }
        let removed = self.records.len() - kept.len();
        self.records = kept;
        removed as u64
    }

    /// The events of a window at instant `now`, in key order (see
    /// `episodic_window`).
    pub fn get_window_at(&self, window: &Window, now: Timestamp) -> (r: Vec<MemoryRecord>)
        ensures
            record_views(r@) == episodic_window(self@.records, *window, now),
    {
        let ghost s = self@.records;
        match window {
            Window::LastN { count } => {
                let mut out: Vec<MemoryRecord> = Vec::new();
                let n = self.records.len();
                let mut k: usize = 0;
                while k < n && k < *count
                    invariant
                        n == s.len(),
                        s == self@.records,
                        k <= n,
                        k <= *count,
                        record_views(out@) == s.reverse().take(k as int),
                    decreases n - k,
                {
                    let c = self.records[n - 1 - k].copy();
                    let ghost before = record_views(out@);
                    out.push(c);
                    assert(c@ == s[n - 1 - k]);
                    assert(s.reverse()[k as int] == s[n - 1 - k]);
                    assert(record_views(out@) =~= before.push(c@));
                    assert(record_views(out@) =~= s.reverse().take(k + 1));
                    k = k + 1;
                }
                proof {
                    if n <= *count {
                        assert(s.reverse().take(n as int) =~= s.reverse());
                    }
                }
                out
            },
            Window::LastDuration { duration } => {
                let secs: u64 = duration.as_secs();
                let nanos: u32 = duration.subsec_nanos();
                let span: i128 = secs as i128 * 1_000_000_000 + nanos as i128;
                let delta: i128 = if span <= 9_223_372_036_854_775_807i128 * 1_000_000 {
                    span
                } else {
                    0
                };
                let cutoff: i128 = now.secs as i128 * 1_000_000_000 + now.nanos as i128 - delta;
                let ghost d = *duration;
                let keep = |x: &MemoryRecord| -> (b: bool)
                    ensures
                        b == in_recent_millis(x@, now, d),
                    {
                        let ms: i128 = x.metadata.created_at.secs as i128 * 1000
                            + (x.metadata.created_at.nanos / 1_000_000) as i128;
                        proof {
                            lemma_floor_millis(ms as int, cutoff as int);
                        }
                        (ms + 1) * 1_000_000 > cutoff
                    };
                filter_records(&self.records, keep, Ghost(|r: RecordView| in_recent_millis(r, now, d)))
            },
            Window::TopBy { count, field } => {
                let all = crate::records::copy_records(&self.records);
                let order = RecordOrder::Field {
                    field: copy_string(field),
                    swapped: false,
                    reversed: true,
                    missing_first: false,
                };
                let mut sorted = sort_records(all, &order);
                truncate_records(&mut sorted, *count);
                sorted
            },
            Window::Since { condition } => {
                let all = crate::records::copy_records(&self.records);
                records_since(all, condition)
            },
        }
    }

    /// The events of a window now.
    pub fn get_window(&self, window: &Window) -> (r: Vec<MemoryRecord>)
        ensures
            exists|now: Timestamp|
                now.wf() && record_views(r@) == episodic_window(self@.records, *window, now),
    {
        let now = clock_now();
        self.get_window_at(window, now)
    }

    /// Whether every event an update with `predicate` would change can
    /// still have its version bumped.
    pub fn can_update(&self, predicate: &Predicate) -> (r: bool)
        ensures
            r == forall|i: int|
                0 <= i < self@.records.len() && episodic_matches(#[trigger] self@.records[i], *predicate)
                    ==> self@.records[i].meta.version < u64::MAX,
    {
        let mut i: usize = 0;
        while i < self.records.len()
            invariant
                i <= self.records@.len(),
                forall|k: int|
                    0 <= k < i && episodic_matches(#[trigger] self@.records[k], *predicate)
                        ==> self@.records[k].meta.version < u64::MAX,
            decreases self.records@.len() - i,
        {
            if self.records[i].metadata.version == u64::MAX && matches_predicate(&self.records[i], predicate) {
                assert(self@.records[i as int].meta.version == u64::MAX);
                return false;
            }
            i = i + 1;
        }
        true
    }

    /// The number of events.
    pub fn count(&self) -> (r: usize)
        ensures
            r == self@.records.len(),
    {
        self.records.len()
    }

    /// Removes every event.
    pub fn clear(&mut self)
        ensures
            final(self)@.records == Seq::<RecordView>::empty(),
    {
        self.records = Vec::new();
        assert(self@.records =~= Seq::<RecordView>::empty());
    }

    /// The memory kind this backend holds.
    pub fn memory_type(&self) -> (r: MemoryType)
        ensures
            r == MemoryType::Episodic,
    {
        MemoryType::Episodic
    }

    /// What this backend offers.
    pub fn info(&self) -> (r: BackendInfo)
        ensures
            r == backend_info_of(MemoryType::Episodic),
    {
        BackendInfo::episodic()
    }
}

impl Default for EpisodicBackend {
    fn default() -> (r: EpisodicBackend)
        ensures
            r@.records == Seq::<RecordView>::empty(),
    {
        EpisodicBackend::new()
    }
}

/// Whether an event's millisecond is no earlier than the millisecond of
/// the instant the span before `now` starts.
pub open spec fn in_recent_millis(r: RecordView, now: Timestamp, d: Ttl) -> bool {
    millis_of(r.meta.created_at) >= (now.total() - delta_of(d.total())) / 1_000_000
}

/// `m` is at least the millisecond of instant `t` (in nanoseconds) when
/// `(m + 1)` milliseconds lie beyond `t`.
proof fn lemma_floor_millis(m: int, t: int)
    ensures
        (m >= t / 1_000_000) == ((m + 1) * 1_000_000 > t),
{
    assert((m >= t / 1_000_000) == ((m + 1) * 1_000_000 > t)) by (nonlinear_arith);
}

/// The events of a window of the store at instant `now`: the `n` last in
/// key order, last first; those from the millisecond the span before `now`
/// starts on, in key order; the `n` with the greatest field values
/// (events without the field first); or, in key order, those from the
/// first satisfying a condition on.
pub open spec fn episodic_window(s: Seq<RecordView>, w: Window, now: Timestamp) -> Seq<RecordView> {
    match w {
        Window::LastN { count } => if count < s.len() { s.reverse().take(count as int) } else { s.reverse() },
        Window::LastDuration { duration } => s.filter(|r: RecordView| in_recent_millis(r, now, duration)),
        Window::TopBy { count, field } => limited(
            sort_stable(
                s,
                record_gt(
                    RecordOrderView::Field {
                        field: field@,
                        swapped: false,
                        reversed: true,
                        missing_first: false,
                    },
                ),
            ),
            Some(count),
        ),
        Window::Since { condition } => since(s, condition),
    }
}

/// Filtering keeps events in key order with unique keys.
proof fn lemma_filter_keeps_order(s: Seq<RecordView>, p: spec_fn(RecordView) -> bool)
    requires
        in_key_order(s),
        keys_unique(s),
    ensures
        in_key_order(s.filter(p)),
        keys_unique(s.filter(p)),
    decreases s.len(),
{
    broadcast use vstd::seq_lib::group_filter_ensures;
    if s.len() > 0 {
        let init = s.drop_last();
        assert(in_key_order(init) && keys_unique(init)) by {
            assert forall|i: int, j: int| 0 <= i < j < init.len() implies key_lt(init[i], init[j]) && init[i].id != init[j].id by {
                assert(init[i] == s[i] && init[j] == s[j]);
            }
        }
        lemma_filter_keeps_order(init, p);
        assert(s =~= init.push(s.last()));
        init.lemma_filter_push(s.last(), p);
        if p(s.last()) {
            let g = init.filter(p);
            let f = s.filter(p);
            assert forall|i: int, j: int| #![trigger f[i], f[j]] 0 <= i < j < f.len() implies key_lt(f[i], f[j]) && f[i].id != f[j].id by {
                if j == f.len() - 1 {
                    lemma_filter_member(init, p, i);
                    let w = choose|w: int| 0 <= w < init.len() && init[w] == g[i];
                    assert(s[w] == init[w]);
                    assert(key_lt(s[w], s[s.len() - 1]));
                    assert(s[w].id != s[s.len() - 1].id);
                } else {
                    assert(f[i] == g[i] && f[j] == g[j]);
                }
            }
            assert(keys_unique(f));
        } else {
            assert(s.filter(p) == init.filter(p));
        }
    } else {
        assert(s.filter(p).len() == 0);
    }
}

// ---------------------------------------------------------------------------
// Aggregation
// ---------------------------------------------------------------------------

/// The lower-case name of an aggregate function, its result name by default.
pub open spec fn aggregate_name(f: AggregateFuncType) -> Seq<char> {
    match f {
        AggregateFuncType::Count => "count"@,
        AggregateFuncType::Sum => "sum"@,
        AggregateFuncType::Avg => "avg"@,
        AggregateFuncType::Min => "min"@,
        AggregateFuncType::Max => "max"@,
    }
}

/// The result name of an aggregate: its alias, or its function's name.
pub open spec fn aggregate_alias(f: AggregateFunc) -> Seq<char> {
    match f.alias {
        Some(x) => x@,
        None => aggregate_name(f.func),
    }
}

/// The values of field `f` in the events that have it, in their order.
pub open spec fn field_values(s: Seq<RecordView>, f: Seq<char>) -> Seq<JsonView>
    decreases s.len(),
{
    if s.len() == 0 {
        Seq::empty()
    } else {
        let rest = field_values(s.drop_last(), f);
        match json_get(s.last().data, f) {
            Some(v) => rest.push(v),
            None => rest,
        }
    }
}

/// The values of documents.
pub open spec fn json_views(v: Seq<Json>) -> Seq<JsonView> {
    v.map_values(|j: Json| j@)
}

/// The values of field `f` in the events that have it.
fn collect_field(records: &Vec<MemoryRecord>, f: &str) -> (r: Vec<Json>)
    ensures
        json_views(r@) == field_values(record_views(records@), f@),
{
    let ghost s = record_views(records@);
    let mut out: Vec<Json> = Vec::new();
    let mut i: usize = 0;
    while i < records.len()
        invariant
            i <= records@.len(),
            s == record_views(records@),
            json_views(out@) == field_values(s.take(i as int), f@),
        decreases records@.len() - i,
    {
        proof {
            assert(s.take(i + 1).drop_last() =~= s.take(i as int));
            assert(s.take(i + 1).last() == s[i as int]);
        }
        match records[i].get(f) {
            Some(v) => {
                let c = v.copy();
                let ghost before = json_views(out@);
                out.push(c);
                assert(json_views(out@) =~= before.push(c@));
            },
            None => {},
        }
        i = i + 1;
    }
    assert(s.take(s.len() as int) =~= s);
    out
}

/// Whether `d` is the double value `v` reads as: a number's `as_f64`, the
/// double `parse` reads from a text, and none for any other value.
pub open spec fn double_read<F: Fn(String) -> Option<u64>>(parse: F, v: JsonView, d: Option<u64>) -> bool {
    match v {
        JsonView::Number(n) => d == Some(number_as_f64(n)),
        JsonView::String(t) => exists|s: String| s@ == t && #[trigger] call_ensures(parse, (s,), d),
        _ => d is None,
    }
}

/// Whether `reads` are the double values the values `vs` read as.
pub open spec fn doubles_read<F: Fn(String) -> Option<u64>>(
    parse: F,
    vs: Seq<JsonView>,
    reads: Seq<Option<u64>>,
) -> bool {
    &&& reads.len() == vs.len()
    &&& forall|i: int| 0 <= i < vs.len() ==> double_read(parse, #[trigger] vs[i], reads[i])
}

/// The values present among optional ones, in their order.
pub open spec fn present(s: Seq<Option<u64>>) -> Seq<u64>
    decreases s.len(),
{
    if s.len() == 0 {
        Seq::empty()
    } else {
        let p = present(s.drop_last());
        match s.last() {
            Some(x) => p.push(x),
            None => p,
        }
    }
}

/// Bit pattern of the double -0.0.
pub open spec fn f64_negative_zero() -> u64 {
    0x8000_0000_0000_0000
}

/// A double bit pattern is finite: not every exponent bit is set.
pub open spec fn f64_finite(bits: u64) -> bool {
    (bits as nat / two52()) % 2048 != 2047
}

/// What an aggregate other than COUNT gives when no value reads as a
/// double: zero for SUM, null otherwise.
pub open spec fn empty_aggregate(f: AggregateFuncType) -> JsonView {
    if f == AggregateFuncType::Sum {
        JsonView::Number(Number::PosInt(0))
    } else {
        JsonView::Null
    }
}

/// What an aggregate other than COUNT gives for the double `b` its values
/// reduce to: a finite SUM (-0 made 0) as a double, else 0; a finite AVG,
/// MIN or MAX as a double, else null.
pub open spec fn reduced_aggregate(f: AggregateFuncType, b: u64) -> JsonView {
    if f == AggregateFuncType::Sum {
        let z = if b == f64_negative_zero() { 0u64 } else { b };
        if f64_finite(z) {
            JsonView::Number(Number::Float(z))
        } else {
            JsonView::Number(Number::PosInt(0))
        }
    } else if f64_finite(b) {
        JsonView::Number(Number::Float(b))
    } else {
        JsonView::Null
    }
}

/// Whether `v` is what `reduce` makes of the doubles `ds` for `func`.
pub open spec fn reduced_from<R: Fn(AggregateFuncType, Vec<u64>) -> u64>(
    reduce: R,
    func: AggregateFuncType,
    ds: Seq<u64>,
    v: JsonView,
) -> bool {
    if ds.len() == 0 {
        v == empty_aggregate(func)
    } else {
        exists|dv: Vec<u64>, b: u64| dv@ == ds && #[trigger] call_ensures(reduce, (func, dv), b) && v
            == reduced_aggregate(func, b)
    }
}

/// Whether `(alias, v)` is the result of aggregate `f` over `records`:
/// under its result name, COUNT the number of records, a function without
/// a field null, any other the reduction of the doubles the field's values
/// read as (see `reduced_from`).
pub open spec fn aggregate_entry<F: Fn(String) -> Option<u64>, R: Fn(AggregateFuncType, Vec<u64>) -> u64>(
    parse: F,
    reduce: R,
    records: Seq<RecordView>,
    f: AggregateFunc,
    alias: Seq<char>,
    v: JsonView,
) -> bool {
    &&& alias == aggregate_alias(f)
    &&& match f.func {
        AggregateFuncType::Count => v == JsonView::Number(Number::PosInt(records.len() as u64)),
        _ => match f.field {
            None => v == JsonView::Null,
            Some(x) => exists|reads: Seq<Option<u64>>|
                #[trigger] doubles_read(parse, field_values(records, x@), reads) && reduced_from(
                    reduce,
                    f.func,
                    present(reads),
                    v,
                ),
        },
    }
}

/// Whether `entries` are the results of the aggregates `funcs` over
/// `records`, one each, in their order.
pub open spec fn aggregate_entries<F: Fn(String) -> Option<u64>, R: Fn(AggregateFuncType, Vec<u64>) -> u64>(
    parse: F,
    reduce: R,
    records: Seq<RecordView>,
    funcs: Seq<AggregateFunc>,
    entries: Seq<(Seq<char>, JsonView)>,
) -> bool {
    &&& entries.len() == funcs.len()
    &&& forall|k: int|
        0 <= k < funcs.len() ==> aggregate_entry(parse, reduce, records, #[trigger] funcs[k], entries[k].0, entries[k].1)
}

/// The aggregation document: an object with each entry set in turn, so a
/// later aggregate under a name already used replaces the earlier value.
pub open spec fn aggregate_object(entries: Seq<(Seq<char>, JsonView)>) -> JsonView {
    JsonView::Object(object_merge(Seq::empty(), entries))
}

/// Whether `r` is the aggregation of `funcs` over `records`.
pub open spec fn aggregated<F: Fn(String) -> Option<u64>, R: Fn(AggregateFuncType, Vec<u64>) -> u64>(
    parse: F,
    reduce: R,
    records: Seq<RecordView>,
    funcs: Seq<AggregateFunc>,
    r: JsonView,
) -> bool {
    exists|entries: Seq<(Seq<char>, JsonView)>|
        #[trigger] aggregate_entries(parse, reduce, records, funcs, entries) && r == aggregate_object(entries)
}

/// The double values `values` read as, texts read with `parse`.
fn read_doubles<F: Fn(String) -> Option<u64>>(values: &Vec<Json>, parse: &F) -> (r: Vec<Option<u64>>)
    requires
        forall|s: String| call_requires(*parse, (s,)),
    ensures
        doubles_read(*parse, json_views(values@), r@),
{
    let ghost vs = json_views(values@);
    let mut out: Vec<Option<u64>> = Vec::new();
    let mut i: usize = 0;
    while i < values.len()
        invariant
            i <= values@.len(),
            vs == json_views(values@),
            out@.len() == i,
            forall|s: String| call_requires(*parse, (s,)),
            forall|j: int| 0 <= j < i ==> double_read(*parse, #[trigger] vs[j], out@[j]),
        decreases values@.len() - i,
    {
        assert(vs[i as int] == values@[i as int]@);
        let d = match &values[i] {
            Json::Number(n) => Some(n.as_f64_bits()),
            Json::String(t) => {
                let s = copy_string(t);
                let d = parse(s);
                assert(call_ensures(*parse, (s,), d));
                d
            },
            _ => None,
        };
        out.push(d);
        i = i + 1;
    }
    out
}

/// The values present among `reads`, in their order.
fn present_values(reads: &Vec<Option<u64>>) -> (r: Vec<u64>)
    ensures
        r@ == present(reads@),
{
    let mut out: Vec<u64> = Vec::new();
    let mut i: usize = 0;
    while i < reads.len()
        invariant
            i <= reads@.len(),
            out@ == present(reads@.take(i as int)),
        decreases reads@.len() - i,
    {
        proof {
            assert(reads@.take(i + 1).drop_last() =~= reads@.take(i as int));
            assert(reads@.take(i + 1).last() == reads@[i as int]);
        }
        match reads[i] {
            Some(x) => out.push(x),
            None => {},
        }
        i = i + 1;
    }
    assert(reads@.take(reads@.len() as int) =~= reads@);
    out
}

/// Whether the double with bit pattern `bits` is finite.
fn f64_bits_is_finite(bits: u64) -> (r: bool)
    ensures
        r == f64_finite(bits),
{
    (bits / 0x10_0000_0000_0000) % 2048 != 2047
}

/// The result of aggregate `f` over `records`, under its result name.
fn aggregate_one<F: Fn(String) -> Option<u64>, R: Fn(AggregateFuncType, Vec<u64>) -> u64>(
    records: &Vec<MemoryRecord>,
    f: &AggregateFunc,
    parse: &F,
    reduce: &R,
) -> (r: (String, Json))
    requires
        forall|s: String| call_requires(*parse, (s,)),
        forall|g: AggregateFuncType, v: Vec<u64>| call_requires(*reduce, (g, v)),
    ensures
        aggregate_entry(*parse, *reduce, record_views(records@), *f, r.0@, r.1@),
{
    proof {
        reveal_strlit("count");
        reveal_strlit("sum");
        reveal_strlit("avg");
        reveal_strlit("min");
        reveal_strlit("max");
    }
    let alias = match &f.alias {
        Some(x) => copy_string(x),
        None => match f.func {
            AggregateFuncType::Count => owned("count"),
            AggregateFuncType::Sum => owned("sum"),
            AggregateFuncType::Avg => owned("avg"),
            AggregateFuncType::Min => owned("min"),
            AggregateFuncType::Max => owned("max"),
        },
    };
    let ghost s = record_views(records@);
    assert(s.len() == records@.len());
    let value = match f.func {
        AggregateFuncType::Count => Json::Number(Number::PosInt(records.len() as u64)),
        _ => match &f.field {
            None => Json::Null,
            Some(x) => {
                let values = collect_field(records, x.as_str());
                let reads = read_doubles(&values, parse);
                let ds = present_values(&reads);
                let ghost rv = reads@;
                assert(doubles_read(*parse, field_values(s, x@), rv));
                if ds.len() == 0 {
                    let v = if f.func == AggregateFuncType::Sum {
                        Json::Number(Number::PosInt(0))
                    } else {
                        Json::Null
                    };
                    assert(reduced_from(*reduce, f.func, present(rv), v@));
                    v
                } else {
                    let ghost dv = ds;
                    let b = reduce(f.func, ds);
                    assert(call_ensures(*reduce, (f.func, dv), b));
                    let v = if f.func == AggregateFuncType::Sum {
                        let z: u64 = if b == 0x8000_0000_0000_0000 {
                            0
                        } else {
                            b
                        };
                        if f64_bits_is_finite(z) {
                            Json::Number(Number::Float(z))
                        } else {
                            Json::Number(Number::PosInt(0))
                        }
                    } else if f64_bits_is_finite(b) {
                        Json::Number(Number::Float(b))
                    } else {
                        Json::Null
                    };
                    assert(v@ == reduced_aggregate(f.func, b));
                    assert(reduced_from(*reduce, f.func, present(rv), v@));
                    v
                }
            },
        },
    };
    (alias, value)
}

impl EpisodicBackend {
    /// The aggregates of `funcs` over `records` as one object (see
    /// `aggregated`): COUNT counts the records; SUM, AVG, MIN and MAX read
    /// the field's values as doubles (numbers, and texts read with
    /// `parse`), and `reduce` computes the sum, mean, least or greatest of
    /// them in double precision.
    pub fn aggregate<F: Fn(String) -> Option<u64>, R: Fn(AggregateFuncType, Vec<u64>) -> u64>(
        &self,
        records: &Vec<MemoryRecord>,
        funcs: &Vec<AggregateFunc>,
        parse: &F,
        reduce: &R,
    ) -> (r: Json)
        requires
            forall|s: String| call_requires(*parse, (s,)),
            forall|g: AggregateFuncType, v: Vec<u64>| call_requires(*reduce, (g, v)),
        ensures
            aggregated(*parse, *reduce, record_views(records@), funcs@, r@),
    {
        let ghost s = record_views(records@);
        let mut m: Vec<(String, Json)> = Vec::new();
        let ghost mut entries: Seq<(Seq<char>, JsonView)> = Seq::empty();
        assert(members_view(m@) =~= object_merge(Seq::empty(), entries));
        let mut k: usize = 0;
        while k < funcs.len()
            invariant
                k <= funcs@.len(),
                s == record_views(records@),
                entries.len() == k,
                forall|s2: String| call_requires(*parse, (s2,)),
                forall|g: AggregateFuncType, v: Vec<u64>| call_requires(*reduce, (g, v)),
                forall|j: int|
                    0 <= j < k ==> aggregate_entry(*parse, *reduce, s, #[trigger] funcs@[j], entries[j].0, entries[j].1),
                members_view(m@) == object_merge(Seq::empty(), entries),
            decreases funcs@.len() - k,
        {
            let (alias, value) = aggregate_one(records, &funcs[k], parse, reduce);
            let ghost e = (alias@, value@);
            set_member(&mut m, alias, value);
            proof {
                let ne = entries.push(e);
                assert(ne.drop_last() =~= entries);
                entries = ne;
            }
            k = k + 1;
        }
        assert(aggregate_entries(*parse, *reduce, s, funcs@, entries));
        object_of(m)
    }
}

// ---------------------------------------------------------------------------
// Laws
// ---------------------------------------------------------------------------

/// Storing keeps the events in key order with unique keys, and the stored
/// event is the only one under its key.
pub proof fn lemma_stored_key_unique(s: Seq<RecordView>, r: RecordView)
    requires
        keys_unique(s),
    ensures
        forall|k: int| 0 <= k < without_key(s, r.id).len() ==> (#[trigger] without_key(s, r.id)[k]).id != r.id,
{
    lemma_key_index(s, r.id);
    let t = without_key(s, r.id);
    assert forall|k: int| 0 <= k < t.len() implies (#[trigger] t[k]).id != r.id by {
        if let Some(i) = key_index(s, r.id) {
            let k2 = if k < i { k } else { k + 1 };
            assert(t[k] == s[k2]);
            if k2 < i {
                assert(s[k2].id != s[i].id);
            } else {
                assert(s[i].id != s[k2].id);
            }
        }
    }
}

/// In an aggregation document, an aggregate's result name (when no later
/// aggregate takes the same name) reads as: for COUNT, the number of
/// aggregated records, whatever field it names; for SUM, AVG, MIN or MAX
/// without a field, null.
pub proof fn lemma_count_and_fieldless<F: Fn(String) -> Option<u64>, R: Fn(AggregateFuncType, Vec<u64>) -> u64>(
    parse: F,
    reduce: R,
    records: Seq<RecordView>,
    funcs: Seq<AggregateFunc>,
    j: JsonView,
    k: int,
)
    requires
        aggregated(parse, reduce, records, funcs, j),
        0 <= k < funcs.len(),
        forall|l: int| k < l < funcs.len() ==> aggregate_alias(#[trigger] funcs[l]) != aggregate_alias(funcs[k]),
    ensures
        funcs[k].func == AggregateFuncType::Count ==> json_get(j, aggregate_alias(funcs[k])) == Some(
            JsonView::Number(Number::PosInt(records.len() as u64)),
        ),
        funcs[k].func != AggregateFuncType::Count && funcs[k].field is None ==> json_get(j, aggregate_alias(funcs[k]))
            == Some(JsonView::Null),
{
    let e = choose|e: Seq<(Seq<char>, JsonView)>|
        #[trigger] aggregate_entries(parse, reduce, records, funcs, e) && j == aggregate_object(e);
    assert(aggregate_entry(parse, reduce, records, funcs[k], e[k].0, e[k].1));
    assert forall|l: int| k < l < e.len() implies e[l].0 != e[k].0 by {
        assert(aggregate_entry(parse, reduce, records, funcs[l], e[l].0, e[l].1));
    }
    crate::json::lemma_object_merge_get(Seq::empty(), e, k);
}

} // verus!

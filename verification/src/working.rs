//! Working memory: records under unique keys, with optional expiry.
use vstd::prelude::*;
use crate::backend::{backend_info_of, BackendInfo};
use crate::json::{json_get, merge_members, members_view, object_merge, Json, JsonView};
use crate::links::opt_str_view;
use crate::memory::{expired_at, MemoryRecord, MemoryType, Metadata, MetadataView, RecordView};
use crate::order::{
    record_gt, record_views, sort_records, sort_stable, RecordOrder, RecordOrderView,
};
use crate::predicate::{
    all_conditions_hold, condition_holds, conditions_hold, json_equals_value, value_equals,
    Condition, Modifiers, Predicate, Value, Window,
};
use crate::records::{
    records_since, since, all_touched, copy_records, filter_records, limited, live, select_records, selected,
    touch_records, truncate_records,
};
use crate::scope::Scope;
use crate::seqs::{lemma_filter_step, lemma_take_all};
use crate::text::{copy_string, owned, str_eq};
use crate::time::{clock_now, delta_of, Timestamp, Ttl};

verus! {

broadcast use vstd::string::group_string_axioms;

/// Position of the record with key `id`, if any (keys are unique).
pub open spec fn key_index(s: Seq<RecordView>, id: Seq<char>) -> Option<int> {
    if exists|i: int| 0 <= i < s.len() && s[i].id == id {
        Some(choose|i: int| 0 <= i < s.len() && s[i].id == id)
    } else {
        None
    }
}

/// `key_index` finds a record with the key, or there is none.
pub proof fn lemma_key_index(s: Seq<RecordView>, id: Seq<char>)
    ensures
        match key_index(s, id) {
            Some(i) => 0 <= i < s.len() && s[i].id == id,
            None => forall|i: int| 0 <= i < s.len() ==> s[i].id != id,
        },
{
}

/// No two records share a key.
pub open spec fn keys_unique(s: Seq<RecordView>) -> bool {
    forall|i: int, j: int| 0 <= i < j < s.len() ==> s[i].id != s[j].id
}

/// The records with `r` stored under its key: replacing the record with
/// that key, or added at the end.
pub open spec fn with_record(s: Seq<RecordView>, r: RecordView) -> Seq<RecordView> {
    match key_index(s, r.id) {
        Some(i) => s.update(i, r),
        None => s.push(r),
    }
}

/// The key a predicate looks up directly: `KEY id = "..."`.
pub open spec fn id_key(p: Predicate) -> Option<Seq<char>> {
    match p {
        Predicate::Key { field, value } => if field@ == "id"@ {
            match value {
                Value::String(s) => Some(s@),
                _ => None,
            }
        } else {
            None
        },
        _ => None,
    }
}

/// Whether a working-memory record satisfies a predicate: `ALL` holds of
/// every record, `KEY id = s` of the record with key `s`, `KEY field = v`
/// of records whose payload member equals `v`, `WHERE` of records whose
/// payload satisfies every condition; similarity and pattern predicates
/// hold of none.
pub open spec fn working_matches(r: RecordView, p: Predicate) -> bool {
    match p {
        Predicate::All => true,
        Predicate::Key { field, value } => if field@ == "id"@ {
            match value {
                Value::String(s) => r.id == s@,
                _ => false,
            }
        } else {
            match json_get(r.data, field@) {
                Some(v) => value_equals(v, value@),
                None => false,
            }
        },
        Predicate::Where { conditions } => conditions_hold(conditions@, r.data),
        _ => false,
    }
}

/// The records left after forgetting those that satisfy `p`.
pub open spec fn kept_after_forget(s: Seq<RecordView>, p: Predicate) -> Seq<RecordView> {
    s.filter(|x: RecordView| !working_matches(x, p))
}

/// The live records satisfying a predicate.
pub open spec fn live_matching(s: Seq<RecordView>, p: Predicate, now: Timestamp) -> Seq<RecordView> {
    s.filter(|r: RecordView| !expired_at(r.meta, now) && working_matches(r, p))
}

/// What a lookup returns at instant `now`: for `KEY id = s`, the record
/// with key `s` if there is one (expired or not, modifiers aside);
/// otherwise the live matching records, filtered by scope and namespace,
/// ordered (records without the field first), limited, and marked read.
pub open spec fn working_lookup(s: Seq<RecordView>, p: Predicate, m: Modifiers, now: Timestamp) -> Seq<RecordView> {
    match id_key(p) {
        Some(id) => match key_index(s, id) {
            Some(i) => seq![s[i]],
            None => Seq::empty(),
        },
        None => all_touched(selected(live_matching(s, p, now), m, true), now),
    }
}

/// A payload after an update with `data`: an object update sets each of
/// its members on an object payload (and leaves another payload as it
/// is); any other update replaces the payload.
pub open spec fn merged(old: JsonView, data: JsonView) -> JsonView {
    match data {
        JsonView::Object(u) => match old {
            JsonView::Object(m) => JsonView::Object(object_merge(m, u)),
            _ => old,
        },
        _ => data,
    }
}

/// A record after an update with `data` at instant `now`: payload merged,
/// version bumped, marked read.
pub open spec fn updated(r: RecordView, data: JsonView, now: Timestamp) -> RecordView {
    RecordView {
        data: merged(r.data, data),
        meta: MetadataView { version: (r.meta.version + 1) as u64, accessed_at: now, ..r.meta },
        ..r
    }
}

/// The records after an update of the live records satisfying `p`.
pub open spec fn working_updated(s: Seq<RecordView>, p: Predicate, data: JsonView, now: Timestamp) -> Seq<RecordView> {
    s.map_values(
        |r: RecordView|
            if !expired_at(r.meta, now) && working_matches(r, p) {
                updated(r, data, now)
            } else {
                r
            },
    )
}

/// The order of `TOP n BY field`: greatest first, records without the
/// field first.
pub open spec fn top_order(field: Seq<char>) -> RecordOrderView {
    RecordOrderView::Field { field, swapped: true, reversed: false, missing_first: true }
}

/// The records of a window at instant `now`.
pub open spec fn windowed(s: Seq<RecordView>, w: Window, now: Timestamp) -> Seq<RecordView> {
    match w {
        Window::LastN { count } => if s.len() <= count { s } else { s.skip(s.len() - count) },
        Window::LastDuration { duration } => s.filter(
            |r: RecordView| r.meta.created_at.total() > now.total() - delta_of(duration.total()),
        ),
        Window::TopBy { count, field } => limited(sort_stable(s, record_gt(top_order(field@))), Some(count)),
        Window::Since { condition } => since(s, condition),
    }
}

/// What a scan returns at instant `now`.
pub open spec fn working_scan(s: Seq<RecordView>, w: Option<Window>, now: Timestamp) -> Seq<RecordView> {
    match w {
        Some(x) => windowed(live(s, now), x, now),
        None => live(s, now),
    }
}

/// The value of a working-memory backend.
pub struct WorkingView {
    /// The records, in the order their keys were first stored.
    pub records: Seq<RecordView>,
    pub ttl_enabled: bool,
}

/// Working memory.
pub struct WorkingBackend {
    records: Vec<MemoryRecord>,
    ttl_enabled: bool,
}

impl View for WorkingBackend {
    type V = WorkingView;

    closed spec fn view(&self) -> WorkingView {
        WorkingView { records: record_views(self.records@), ttl_enabled: self.ttl_enabled }
    }
}

/// Whether a record satisfies a working-memory predicate.
fn matches_predicate(record: &MemoryRecord, predicate: &Predicate) -> (r: bool)
    ensures
        r == working_matches(record@, *predicate),
{
    match predicate {
        Predicate::All => true,
        Predicate::Key { field, value } => {
            proof {
                reveal_strlit("id");
            }
            if str_eq(field.as_str(), "id") {
                match value {
                    Value::String(s) => str_eq(record.id.as_str(), s.as_str()),
                    _ => false,
                }
            } else {
                match record.get(field.as_str()) {
                    Some(v) => json_equals_value(v, value),
                    None => false,
                }
            }
        },
        Predicate::Where { conditions } => all_conditions_hold(conditions, &record.data),
        _ => false,
    }
}

/// The key a predicate looks up directly.
fn direct_key(predicate: &Predicate) -> (r: Option<&str>)
    ensures
        opt_str_view(r) == id_key(*predicate),
{
    proof {
        reveal_strlit("id");
    }
    match predicate {
        Predicate::Key { field, value } => {
            if str_eq(field.as_str(), "id") {
                match value {
                    Value::String(s) => Some(s.as_str()),
                    _ => None,
                }
            } else {
                None
            }
        },
        _ => None,
    }
}

/// A record updated with `data` at instant `now`.
fn update_record(record: &MemoryRecord, data: &Json, now: Timestamp) -> (r: MemoryRecord)
    requires
        record.metadata.version < u64::MAX,
    ensures
        r@ == updated(record@, data@, now),
{
    let mut c = record.copy();
    let ghost old_data = c.data@;
    match data {
        Json::Object(u) => {
            proof {
                crate::json::lemma_object_view(*u);
            }
            match c.data {
                Json::Object(m) => {
                    proof {
                        crate::json::lemma_object_view(m);
                    }
                    let mut m2 = m;
                    merge_members(&mut m2, u);
                    proof {
                        crate::json::lemma_object_view(m2);
                    }
                    c.data = Json::Object(m2);
                },
                other => {
                    c.data = other;
                },
            }
        },
        _ => {
            c.data = data.copy();
        },
    }
    c.metadata.bump_version();
    c.metadata.touch_at(now);
    c
}

impl WorkingBackend {
    #[verifier::type_invariant]
    spec fn inv(self) -> bool {
        keys_unique(record_views(self.records@))
    }

    /// An empty working memory with expiry on.
    pub fn new() -> (r: WorkingBackend)
        ensures
            r@.records == Seq::<RecordView>::empty(),
            r@.ttl_enabled,
    {
        let r = WorkingBackend { records: Vec::new(), ttl_enabled: true };
        assert(r@.records =~= Seq::<RecordView>::empty());
        r
    }

    /// An empty working memory with room for `capacity` records.
    pub fn with_capacity(capacity: usize) -> (r: WorkingBackend)
        ensures
            r@.records == Seq::<RecordView>::empty(),
            r@.ttl_enabled,
    {
        let r = WorkingBackend { records: Vec::with_capacity(capacity), ttl_enabled: true };
        assert(r@.records =~= Seq::<RecordView>::empty());
        r
    }

    /// Turns expiry on or off.
    pub fn set_ttl_enabled(&mut self, enabled: bool)
        ensures
            final(self)@ == (WorkingView { ttl_enabled: enabled, ..old(self)@ }),
    {
        proof {
            use_type_invariant(&*self);
        }
        self.ttl_enabled = enabled;
    }

    /// Whether expiry is on.
    pub fn ttl_enabled(&self) -> (r: bool)
        ensures
            r == self@.ttl_enabled,
    {
        self.ttl_enabled
    }

    /// Position of the record with key `id`.
    fn find(&self, id: &str) -> (r: Option<usize>)
        ensures
            match r {
                Some(i) => key_index(self@.records, id@) == Some(i as int),
                None => key_index(self@.records, id@) is None,
            },
    {
        proof {
            use_type_invariant(self);
            lemma_key_index(self@.records, id@);
        }
        let mut i: usize = 0;
        while i < self.records.len()
            invariant
                i <= self.records@.len(),
                keys_unique(self@.records),
                match key_index(self@.records, id@) {
                    Some(j) => 0 <= j < self@.records.len() && self@.records[j].id == id@,
                    None => forall|j: int| 0 <= j < self@.records.len() ==> self@.records[j].id != id@,
                },
                forall|k: int| 0 <= k < i ==> self@.records[k].id != id@,
            decreases self.records@.len() - i,
        {
            if str_eq(self.records[i].id.as_str(), id) {
                assert(self@.records[i as int].id == id@);
                proof {
                    let j = key_index(self@.records, id@).unwrap();
                    if j != i as int {
                        if j < i as int {
                            assert(self@.records[j].id != self@.records[i as int].id);
                        } else {
                            assert(self@.records[i as int].id != self@.records[j].id);
                        }
                    }
                }
                return Some(i);
            }
            i = i + 1;
        }
        None
    }

    /// Stores `data` under `key` as of instant `now`, replacing the record
    /// with that key; returns a copy of the stored record.
    pub fn store_at(
        &mut self,
        key: &str,
        data: Json,
        scope: Scope,
        namespace: Option<&str>,
        ttl: Option<Ttl>,
        now: Timestamp,
    ) -> (r: MemoryRecord)
        ensures
            r@ == (RecordView {
                id: key@,
                memory_type: MemoryType::Working,
                data: data@,
                meta: MetadataView {
                    created_at: now,
                    accessed_at: now,
                    scope,
                    namespace: opt_str_view(namespace),
                    ttl,
                    version: 1,
                },
            }),
            final(self)@ == (WorkingView { records: with_record(old(self)@.records, r@), ..old(self)@ }),
    {
        proof {
            use_type_invariant(&*self);
        }
        let mut metadata = Metadata::new_at(scope, now);
        metadata.namespace = match namespace {
            Some(n) => Some(owned(n)),
            None => None,
        };
        metadata.ttl = ttl;
        let record = MemoryRecord { id: owned(key), memory_type: MemoryType::Working, data, metadata };
        let out = record.copy();
        let found = self.find(key);
        let ghost old_s = self@.records;
        proof {
            lemma_key_index(old_s, key@);
            match found {
                Some(i) => {
                    assert(key_index(old_s, key@) == Some(i as int));
                    assert(old_s[i as int].id == key@);
                },
                None => {
                    assert(key_index(old_s, key@) is None);
                },
            }
        }
        let mut records = Vec::new();
        std::mem::swap(&mut records, &mut self.records);
        match found {
            Some(i) => {
                records.set(i, record);
            },
            None => {
                records.push(record);
            },
        }
        proof {
            let ns = record_views(records@);
            match found {
                Some(i) => {
                    assert(ns =~= old_s.update(i as int, out@));
                },
                None => {
                    assert(ns =~= old_s.push(out@));
                },
            }
            assert forall|a: int, b: int| 0 <= a < b < ns.len() implies ns[a].id != ns[b].id by {
                if found is None {
                    if b == old_s.len() {
                        assert(old_s[a].id != key@);
                    } else {
                        assert(old_s[a].id != old_s[b].id);
                    }
                } else {
                    let i = found.unwrap() as int;
                    if a == i {
                        assert(old_s[i].id == key@);
                        assert(old_s[i].id != old_s[b].id);
                    } else if b == i {
                        assert(old_s[a].id != old_s[i].id);
                    } else {
                        assert(old_s[a].id != old_s[b].id);
                    }
                }
            }
        }
        self.records = records;
        out
    }

    /// Stores `data` under `key` now (see `store_at`).
    pub fn store(
        &mut self,
        key: &str,
        data: Json,
        scope: Scope,
        namespace: Option<&str>,
        ttl: Option<Ttl>,
    ) -> (r: MemoryRecord)
        ensures
            r@.id == key@,
            r@.memory_type == MemoryType::Working,
            r@.data == data@,
            r@.meta == (MetadataView {
                created_at: r@.meta.created_at,
                accessed_at: r@.meta.created_at,
                scope,
                namespace: opt_str_view(namespace),
                ttl,
                version: 1,
            }),
            final(self)@ == (WorkingView { records: with_record(old(self)@.records, r@), ..old(self)@ }),
    {
        let now = clock_now();
        self.store_at(key, data, scope, namespace, ttl, now)
    }

    /// The records a lookup finds at instant `now` (see `working_lookup`).
    pub fn lookup_at(&self, predicate: &Predicate, modifiers: &Modifiers, now: Timestamp) -> (r: Vec<MemoryRecord>)
        ensures
            record_views(r@) == working_lookup(self@.records, *predicate, *modifiers, now),
    {
        match direct_key(predicate) {
            Some(id) => {
                let found = self.find(id);
                proof {
                    lemma_key_index(self@.records, id@);
                    assert(id_key(*predicate) == Some(id@));
                }
                match found {
                    Some(i) => {
                        let mut out: Vec<MemoryRecord> = Vec::new();
                        out.push(self.records[i].copy());
                        assert(record_views(out@) =~= seq![self@.records[i as int]]);
                        out
                    },
                    None => {
                        let out: Vec<MemoryRecord> = Vec::new();
                        assert(record_views(out@) =~= Seq::<RecordView>::empty());
                        out
                    },
                }
            },
            None => {
                let keep = |x: &MemoryRecord| -> (b: bool)
                    ensures
                        b == live_and_matching(x@, *predicate, now),
                    { !x.is_expired_at(&now) && matches_predicate(x, predicate) };
                let found = filter_records(
                    &self.records,
                    keep,
                    Ghost(|r: RecordView| live_and_matching(r, *predicate, now)),
                );
                proof {
                    assert((|r: RecordView| live_and_matching(r, *predicate, now)) =~= (|r: RecordView|
                        !expired_at(r.meta, now) && working_matches(r, *predicate)));
                }
                assert(record_views(found@) == live_matching(self@.records, *predicate, now));
                let selected_records = select_records(found, modifiers, true);
                touch_records(selected_records, now)
            },
        }
    }

    /// The records a lookup finds now.
    pub fn lookup(&self, predicate: &Predicate, modifiers: &Modifiers) -> (r: Vec<MemoryRecord>)
        ensures
            exists|now: Timestamp|
                now.wf() && record_views(r@) == working_lookup(self@.records, *predicate, *modifiers, now),
    {
        let now = clock_now();
        self.lookup_at(predicate, modifiers, now)
    }

    /// A recall in working memory is a lookup.
    pub fn recall(&self, predicate: &Predicate, modifiers: &Modifiers) -> (r: Vec<MemoryRecord>)
        ensures
            exists|now: Timestamp|
                now.wf() && record_views(r@) == working_lookup(self@.records, *predicate, *modifiers, now),
    {
        self.lookup(predicate, modifiers)
    }

    /// Removes the records satisfying `predicate` (all of them for `ALL`),
    /// expired or not; returns how many were removed.
    pub fn forget(&mut self, predicate: &Predicate) -> (r: u64)
        ensures
            final(self)@.ttl_enabled == old(self)@.ttl_enabled,
            final(self)@.records == kept_after_forget(old(self)@.records, *predicate),
            r == old(self)@.records.len() - final(self)@.records.len(),
    {
        proof {
            use_type_invariant(&*self);
        }
        let ghost s = self@.records;
        let keep = |x: &MemoryRecord| -> (b: bool)
            ensures
                b == !working_matches(x@, *predicate),
            { !matches_predicate(x, predicate) };
        let kept = filter_records(&self.records, keep, Ghost(|x: RecordView| !working_matches(x, *predicate)));
        proof {
            broadcast use vstd::seq_lib::group_filter_ensures;
            assert(record_views(kept@).len() <= s.len());
        }
        let removed = self.records.len() - kept.len();
        proof {
            broadcast use vstd::seq_lib::group_filter_ensures;
            let ks = record_views(kept@);
            assert forall|a: int, b: int| 0 <= a < b < ks.len() implies ks[a].id != ks[b].id by {
                lemma_filter_keys_unique(s, |x: RecordView| !working_matches(x, *predicate), a, b);
            }
        }
        self.records = kept;
        removed as u64
    }

    /// Updates the live records satisfying `predicate` with `data` at
    /// instant `now`; returns how many were updated.
    pub fn update_at(&mut self, predicate: &Predicate, data: &Json, now: Timestamp) -> (r: u64)
        requires
            forall|i: int|
                0 <= i < old(self)@.records.len() && working_matches(#[trigger] old(self)@.records[i], *predicate)
                    ==> old(self)@.records[i].meta.version < u64::MAX,
        ensures
            final(self)@ == (WorkingView {
                records: working_updated(old(self)@.records, *predicate, data@, now),
                ..old(self)@
            }),
            r == live_matching(old(self)@.records, *predicate, now).len(),
    {
        proof {
            use_type_invariant(&*self);
        }
        let ghost s = self@.records;
        let ghost p = |x: RecordView| live_and_matching(x, *predicate, now);
        let mut records = Vec::new();
        std::mem::swap(&mut records, &mut self.records);
        let mut count: u64 = 0;
        let mut i: usize = 0;
        while i < records.len()
            invariant
                i <= records@.len(),
                records@.len() == s.len(),
                p == (|x: RecordView| live_and_matching(x, *predicate, now)),
                forall|k: int| 0 <= k < i ==> #[trigger] record_views(records@)[k] == working_updated(s, *predicate, data@, now)[k],
                forall|k: int| i <= k < s.len() ==> #[trigger] record_views(records@)[k] == s[k],
                forall|k: int| 0 <= k < s.len() && working_matches(#[trigger] s[k], *predicate) ==> s[k].meta.version < u64::MAX,
                count == s.take(i as int).filter(p).len(),
                count <= i,
            decreases records@.len() - i,
        {
            let hit = !records[i].is_expired_at(&now) && matches_predicate(&records[i], predicate);
            proof {
                assert(record_views(records@)[i as int] == s[i as int]);
                assert(p(s[i as int]) == hit);
                lemma_filter_step(s, p, i as int);
            }
            let ghost w = working_updated(s, *predicate, data@, now);
            assert(w[i as int] == if hit { updated(s[i as int], data@, now) } else { s[i as int] });
            let ghost before = record_views(records@);
            if hit {
                let u = update_record(&records[i], data, now);
                records.set(i, u);
                count = count + 1;
                assert(record_views(records@) =~= before.update(i as int, w[i as int]));
            }
            i = i + 1;
        }
        proof {
            lemma_take_all(s);
            let ns = record_views(records@);
            assert(ns =~= working_updated(s, *predicate, data@, now));
            assert(p =~= (|x: RecordView| !expired_at(x.meta, now) && working_matches(x, *predicate)));
            assert forall|a: int, b: int| 0 <= a < b < ns.len() implies ns[a].id != ns[b].id by {
                assert(s[a].id != s[b].id);
            }
        }
        self.records = records;
        count
    }

    /// Updates the live records satisfying `predicate` with `data` now.
    pub fn update(&mut self, predicate: &Predicate, data: &Json) -> (r: u64)
        requires
            forall|i: int|
                0 <= i < old(self)@.records.len() && working_matches(#[trigger] old(self)@.records[i], *predicate)
                    ==> old(self)@.records[i].meta.version < u64::MAX,
        ensures
            exists|now: Timestamp|
                now.wf() && final(self)@ == (WorkingView {
                    records: working_updated(old(self)@.records, *predicate, data@, now),
                    ..old(self)@
                }) && r == live_matching(old(self)@.records, *predicate, now).len(),
    {
        let now = clock_now();
        self.update_at(predicate, data, now)
    }

    /// The live records at instant `now`, through a window when one is given.
    pub fn scan_at(&self, window: Option<&Window>, now: Timestamp) -> (r: Vec<MemoryRecord>)
        ensures
            record_views(r@) == working_scan(
                self@.records,
                match window {
                    Some(w) => Some(*w),
                    None => None,
                },
                now,
            ),
    {
        let keep = |x: &MemoryRecord| -> (b: bool)
            ensures
                b == not_expired(x@, now),
            { !x.is_expired_at(&now) };
        let alive = filter_records(&self.records, keep, Ghost(|r: RecordView| not_expired(r, now)));
        proof {
            assert((|r: RecordView| not_expired(r, now)) =~= (|r: RecordView| !expired_at(r.meta, now)));
        }
        match window {
            Some(w) => apply_window(alive, w, now),
            None => alive,
        }
    }

    /// The live records now, through a window when one is given.
    pub fn scan(&self, window: Option<&Window>) -> (r: Vec<MemoryRecord>)
        ensures
            exists|now: Timestamp|
                now.wf() && record_views(r@) == working_scan(
                    self@.records,
                    match window {
                        Some(w) => Some(*w),
                        None => None,
                    },
                    now,
                ),
    {
        let now = clock_now();
        self.scan_at(window, now)
    }

    /// Removes the records expired at instant `now`.
    pub fn reap_expired_at(&mut self, now: Timestamp)
        ensures
            final(self)@ == (WorkingView { records: live(old(self)@.records, now), ..old(self)@ }),
    {
        proof {
            use_type_invariant(&*self);
        }
        let ghost s = self@.records;
        let keep = |x: &MemoryRecord| -> (b: bool)
            ensures
                b == not_expired(x@, now),
            { !x.is_expired_at(&now) };
        let alive = filter_records(&self.records, keep, Ghost(|r: RecordView| not_expired(r, now)));
        proof {
            assert((|r: RecordView| not_expired(r, now)) =~= (|r: RecordView| !expired_at(r.meta, now)));
            let ks = record_views(alive@);
            assert forall|a: int, b: int| 0 <= a < b < ks.len() implies ks[a].id != ks[b].id by {
                lemma_filter_keys_unique(s, |r: RecordView| not_expired(r, now), a, b);
            }
        }
        self.records = alive;
    }

    /// Whether every record an update with `predicate` would change can
    /// still have its version bumped.
    pub fn can_update(&self, predicate: &Predicate) -> (r: bool)
        ensures
            r == forall|i: int|
                0 <= i < self@.records.len() && working_matches(#[trigger] self@.records[i], *predicate)
                    ==> self@.records[i].meta.version < u64::MAX,
    {
        let mut i: usize = 0;
        while i < self.records.len()
            invariant
                i <= self.records@.len(),
                forall|k: int|
                    0 <= k < i && working_matches(#[trigger] self@.records[k], *predicate)
                        ==> self@.records[k].meta.version < u64::MAX,
            decreases self.records@.len() - i,
        {
            if self.records[i].metadata.version == u64::MAX && matches_predicate(&self.records[i], predicate) {
                assert(self@.records[i as int].meta.version == u64::MAX);
                return false;
            }
            i = i + 1;
        }
        true
    }

    /// The number of records held, expired ones included.
    pub fn count(&self) -> (r: usize)
        ensures
            r == self@.records.len(),
    {
        self.records.len()
    }

    /// Removes every record.
    pub fn clear(&mut self)
        ensures
            final(self)@ == (WorkingView { records: Seq::empty(), ..old(self)@ }),
    {
        self.records = Vec::new();
        assert(self@.records =~= Seq::<RecordView>::empty());
    }

    /// The memory kind this backend holds.
    pub fn memory_type(&self) -> (r: MemoryType)
        ensures
            r == MemoryType::Working,
    {
        MemoryType::Working
    }

    /// What this backend offers.
    pub fn info(&self) -> (r: BackendInfo)
        ensures
            r == backend_info_of(MemoryType::Working),
    {
        BackendInfo::working()
    }
}

impl Default for WorkingBackend {
    fn default() -> (r: WorkingBackend)
        ensures
            r@.records == Seq::<RecordView>::empty(),
            r@.ttl_enabled,
    {
        WorkingBackend::new()
    }
}

/// Whether a record is live at `now` and satisfies `p`.
pub open spec fn live_and_matching(r: RecordView, p: Predicate, now: Timestamp) -> bool {
    !expired_at(r.meta, now) && working_matches(r, p)
}

/// Whether a record is live at `now`.
pub open spec fn not_expired(r: RecordView, now: Timestamp) -> bool {
    !expired_at(r.meta, now)
}

/// Keys stay unique in a filtered sequence of records.
proof fn lemma_filter_keys_unique(s: Seq<RecordView>, p: spec_fn(RecordView) -> bool, a: int, b: int)
    requires
        keys_unique(s),
        0 <= a < b < s.filter(p).len(),
    ensures
        s.filter(p)[a].id != s.filter(p)[b].id,
    decreases s.len(),
{
    let f = s.filter(p);
    if s.len() > 0 {
        let init = s.drop_last();
        let g = init.filter(p);
        assert forall|i: int, j: int| 0 <= i < j < init.len() implies init[i].id != init[j].id by {
            assert(init[i] == s[i] && init[j] == s[j]);
        }
        assert(s =~= init.push(s.last()));
        init.lemma_filter_push(s.last(), p);
        if p(s.last()) {
            if b < g.len() {
                lemma_filter_keys_unique(init, p, a, b);
            } else {
                crate::seqs::lemma_filter_member(init, p, a);
                let w = choose|w: int| 0 <= w < init.len() && init[w] == g[a];
                assert(s[w] == init[w]);
                assert(s[w].id != s[s.len() - 1].id);
            }
        } else {
            lemma_filter_keys_unique(init, p, a, b);
        }
    }
}

/// The records of a window at instant `now`.
fn apply_window(v: Vec<MemoryRecord>, w: &Window, now: Timestamp) -> (r: Vec<MemoryRecord>)
    ensures
        record_views(r@) == windowed(record_views(v@), *w, now),
{
    let ghost s = record_views(v@);
    match w {
        Window::LastN { count } => {
            let len = v.len();
            if len <= *count {
                v
            } else {
                let skip = len - *count;
                let mut out: Vec<MemoryRecord> = Vec::new();
                let mut j: usize = skip;
                while j < v.len()
                    invariant
                        skip <= j <= v@.len(),
                        s == record_views(v@),
                        record_views(out@) == s.subrange(skip as int, j as int),
                    decreases v@.len() - j,
                {
                    let cp = v[j].copy();
                    let ghost before = record_views(out@);
                    out.push(cp);
                    assert(record_views(out@) =~= before.push(s[j as int]));
                    assert(record_views(out@) =~= s.subrange(skip as int, j + 1));
                    j = j + 1;
                }
                assert(s.subrange(skip as int, s.len() as int) =~= s.skip(skip as int));
                out
            }
        },
        Window::LastDuration { duration } => {
            let secs: u64 = duration.as_secs();
            let nanos: u32 = duration.subsec_nanos();
            let span: i128 = secs as i128 * 1_000_000_000 + nanos as i128;
            let delta: i128 = if span <= 9_223_372_036_854_775_807i128 * 1_000_000 {
                span
            } else {
                0
            };
            let cutoff: i128 = now.secs as i128 * 1_000_000_000 + now.nanos as i128 - delta;
            let ghost d = *duration;
            let keep = |x: &MemoryRecord| -> (b: bool)
                ensures
                    b == created_after(x@, now, d),
                {
                    let t: i128 = x.metadata.created_at.secs as i128 * 1_000_000_000
                        + x.metadata.created_at.nanos as i128;
                    t > cutoff
                };
            let out = filter_records(&v, keep, Ghost(|r: RecordView| created_after(r, now, d)));
            proof {
                assert((|r: RecordView| created_after(r, now, d)) =~= (|r: RecordView|
                    r.meta.created_at.total() > now.total() - delta_of(d.total())));
            }
            out
        },
        Window::TopBy { count, field } => {
            let order = RecordOrder::Field {
                field: copy_string(field),
                swapped: true,
                reversed: false,
                missing_first: true,
            };
            let mut sorted = sort_records(v, &order);
            truncate_records(&mut sorted, *count);
            sorted
        },
        Window::Since { condition } => records_since(v, condition),
    }
}

/// Whether a record was created after the start of a span ending at `now`.
pub open spec fn created_after(r: RecordView, now: Timestamp, d: Ttl) -> bool {
    r.meta.created_at.total() > now.total() - delta_of(d.total())
}

// ---------------------------------------------------------------------------
// Laws
// ---------------------------------------------------------------------------

/// A record stored under a key is the one a direct lookup of the key then
/// finds, and the only record under it.
pub proof fn lemma_store_then_lookup(s: Seq<RecordView>, r: RecordView, m: Modifiers, p: Predicate, now: Timestamp)
    requires
        keys_unique(s),
        id_key(p) == Some(r.id),
    ensures
        working_lookup(with_record(s, r), p, m, now) == seq![r],
        keys_unique(with_record(s, r)),
{
    let t = with_record(s, r);
    match key_index(s, r.id) {
        Some(i) => {
            assert(s[i].id == r.id);
            assert(t[i] == r);
            assert forall|a: int, b: int| 0 <= a < b < t.len() implies t[a].id != t[b].id by {
                if a == i {
                    assert(s[i].id != s[b].id);
                } else if b == i {
                    assert(s[a].id != s[i].id);
                } else {
                    assert(s[a].id != s[b].id);
                }
            }
            let j = key_index(t, r.id).unwrap();
            assert(t[j].id == r.id);
            if j != i {
                if j < i {
                    assert(t[j].id != t[i].id);
                } else {
                    assert(t[i].id != t[j].id);
                }
            }
        },
        None => {
            let n = s.len() as int;
            assert(t[n] == r);
            assert forall|a: int, b: int| 0 <= a < b < t.len() implies t[a].id != t[b].id by {
                if b == n {
                    assert(s[a].id != r.id);
                } else {
                    assert(s[a].id != s[b].id);
                }
            }
            let j = key_index(t, r.id).unwrap();
            if j != n {
                assert(t[j].id != t[n].id);
            }
        },
    }
}

/// After a forget, no remaining record satisfies the predicate, and every
/// record that did not satisfy it remains.
pub proof fn lemma_forget_removes(s: Seq<RecordView>, p: Predicate)
    ensures
        forall|i: int| 0 <= i < kept_after_forget(s, p).len()
            ==> !working_matches(#[trigger] kept_after_forget(s, p)[i], p),
        forall|i: int| 0 <= i < s.len() && !working_matches(s[i], p)
            ==> kept_after_forget(s, p).contains(#[trigger] s[i]),
{
    broadcast use vstd::seq_lib::group_filter_ensures;
}

} // verus!

//! The tool registry: tool definitions with rankings learned from use.
use vstd::prelude::*;
use crate::backend::{backend_info_of, BackendInfo};
use crate::float::{
    f32_bits_lt, f32_bits_of_f64, f32_bits_unit_clamp, f32_lt, f32_of_f64, f32_unit_clamp, f64_bits_of_f32, f64_of_f32,
};
use crate::json::{
    json_as_f64, json_as_str, json_from_f64, json_get, json_of_f64, lemma_object_view, members_view, object_of, object_set,
    push_member, set_member, string_of, Json, JsonView, Number,
};
use crate::memory::{MemoryRecord, MemoryType, Metadata, MetadataView, RecordView};
use crate::order::{first_records, record_views, score_gt, scored_views, sort_scored, sort_stable, unscored};
use crate::predicate::{
    all_conditions_hold, conditions_hold, Condition, Modifiers, Operator, Predicate, Value, ValueView,
};
use crate::records::{in_namespace, in_scope, limited, namespace_of, scoped_records, truncate_records};
use crate::scope::Scope;
use crate::text::{copy_string, owned, str_eq};
use crate::time::{clock_now, representable, rfc3339_of, rfc3339_text, Timestamp, Ttl};

verus! {

broadcast use vstd::string::group_string_axioms;

/// Bit pattern of the single 0.5, a tool's default ranking and relevance.
pub const F32_HALF: u32 = 0x3F00_0000;

/// Bit pattern of the single 0.9, the default decay of rankings.
pub const F32_DECAY: u32 = 0x3F66_6666;

/// A registered tool.
#[derive(Debug)]
pub struct ToolRecord {
    pub tool_id: String,
    pub name: String,
    pub description: String,
    /// JSON schema of the tool's parameters.
    pub schema: Json,
    pub category: String,
    /// Ranking in [0, 1] (an `f32` bit pattern).
    pub ranking: u32,
    pub call_count: u64,
    pub last_called: Option<Timestamp>,
    /// Relevance per task type (`f32` bit patterns), keys unique.
    pub relevance_scores: Vec<(String, u32)>,
    pub metadata: Json,
}

/// The relevance entries of a tool.
pub open spec fn relevance_view(v: Seq<(String, u32)>) -> Seq<(Seq<char>, u32)> {
    v.map_values(|e: (String, u32)| (e.0@, e.1))
}

/// The relevance scores as JSON members (singles widened to doubles).
pub open spec fn relevance_json(v: Seq<(Seq<char>, u32)>) -> Seq<(Seq<char>, JsonView)> {
    v.map_values(|e: (Seq<char>, u32)| (e.0, json_of_f64(f64_of_f32(e.1) as u64)))
}

/// The JSON form of a tool: its fields in key order, the ranking widened
/// to a double, the last call as RFC 3339 text or null.
pub open spec fn tool_json(t: ToolRecord) -> JsonView {
    JsonView::Object(
        seq![
            ("call_count"@, JsonView::Number(Number::PosInt(t.call_count))),
            ("category"@, JsonView::String(t.category@)),
            ("description"@, JsonView::String(t.description@)),
            ("last_called"@, match t.last_called {
                Some(ts) => JsonView::String(rfc3339_of(ts.secs, ts.nanos)),
                None => JsonView::Null,
            }),
            ("metadata"@, t.metadata@),
            ("name"@, JsonView::String(t.name@)),
            ("ranking"@, json_of_f64(f64_of_f32(t.ranking) as u64)),
            ("relevance_scores"@, JsonView::Object(relevance_json(relevance_view(t.relevance_scores@)))),
            ("schema"@, t.schema@),
            ("tool_id"@, JsonView::String(t.tool_id@)),
        ],
    )
}

/// The record a tool is returned as at instant `now`.
pub open spec fn tool_record(t: ToolRecord, scope: Scope, now: Timestamp) -> RecordView {
    RecordView {
        id: t.tool_id@,
        memory_type: MemoryType::Tools,
        data: tool_json(t),
        meta: MetadataView { created_at: now, accessed_at: now, scope, namespace: None, ttl: None, version: 1 },
    }
}

/// The relevance of a tool for a task type: its score, or 0.5.
pub open spec fn relevance_of(v: Seq<(Seq<char>, u32)>, task: Seq<char>) -> u32 {
    if exists|i: int| 0 <= i < v.len() && v[i].0 == task {
        v[choose|i: int| 0 <= i < v.len() && v[i].0 == task].1
    } else {
        F32_HALF
    }
}

/// Keys of relevance entries are unique.
pub open spec fn relevance_keys_unique(v: Seq<(Seq<char>, u32)>) -> bool {
    forall|i: int, j: int| 0 <= i < j < v.len() ==> v[i].0 != v[j].0
}

/// A tool's instant of last call, if any, is one `chrono` can represent.
pub open spec fn tool_wf(t: ToolRecord) -> bool {
    &&& match t.last_called {
        Some(ts) => representable(ts),
        None => true,
    }
    &&& relevance_keys_unique(relevance_view(t.relevance_scores@))
}

impl ToolRecord {
    /// A tool with ranking 0.5, never called, no relevance scores and null
    /// metadata.
    pub fn new(tool_id: &str, name: &str, description: &str, schema: Json, category: &str) -> (r: ToolRecord)
        ensures
            r.tool_id@ == tool_id@,
            r.name@ == name@,
            r.description@ == description@,
            r.schema == schema,
            r.category@ == category@,
            r.ranking == F32_HALF,
            r.call_count == 0,
            r.last_called is None,
            r.relevance_scores@.len() == 0,
            r.metadata@ == JsonView::Null,
            tool_wf(r),
    {
        let r = ToolRecord {
            tool_id: owned(tool_id),
            name: owned(name),
            description: owned(description),
            schema,
            category: owned(category),
            ranking: F32_HALF,
            call_count: 0,
            last_called: None,
            relevance_scores: Vec::new(),
            metadata: Json::Null,
        };
        assert(relevance_view(r.relevance_scores@) =~= Seq::<(Seq<char>, u32)>::empty());
        r
    }

    /// The JSON form of the tool (see `tool_json`).
    pub fn to_json(&self) -> (r: Json)
        requires
            tool_wf(*self),
        ensures
            r@ == tool_json(*self),
    {
        let mut m: Vec<(String, Json)> = Vec::new();
        assert(members_view(m@) =~= Seq::empty());
        push_member(&mut m, "call_count", Json::Number(Number::PosInt(self.call_count)));
        push_member(&mut m, "category", string_of(self.category.as_str()));
        push_member(&mut m, "description", string_of(self.description.as_str()));
        let last = match &self.last_called {
            Some(ts) => {
                let s = rfc3339_text(ts);
                Json::String(s)
            },
            None => Json::Null,
        };
        push_member(&mut m, "last_called", last);
        push_member(&mut m, "metadata", self.metadata.copy());
        push_member(&mut m, "name", string_of(self.name.as_str()));
        push_member(&mut m, "ranking", json_from_f64(f64_bits_of_f32(self.ranking)));
        let mut rel: Vec<(String, Json)> = Vec::new();
        let mut i: usize = 0;
        while i < self.relevance_scores.len()
            invariant
                i <= self.relevance_scores@.len(),
                members_view(rel@) == relevance_json(relevance_view(self.relevance_scores@)).take(i as int),
            decreases self.relevance_scores@.len() - i,
        {
            let e = &self.relevance_scores[i];
            push_member(&mut rel, e.0.as_str(), json_from_f64(f64_bits_of_f32(e.1)));
            assert(relevance_json(relevance_view(self.relevance_scores@)).take(i + 1) =~= relevance_json(
                relevance_view(self.relevance_scores@),
            ).take(i as int).push((e.0@, json_of_f64(f64_of_f32(e.1) as u64))));
            i = i + 1;
        }
        assert(relevance_json(relevance_view(self.relevance_scores@)).take(
            self.relevance_scores@.len() as int,
        ) =~= relevance_json(relevance_view(self.relevance_scores@)));
        push_member(&mut m, "relevance_scores", object_of(rel));
        push_member(&mut m, "schema", self.schema.copy());
        push_member(&mut m, "tool_id", string_of(self.tool_id.as_str()));
        proof {
            reveal_strlit("call_count");
            reveal_strlit("category");
            reveal_strlit("description");
            reveal_strlit("last_called");
            reveal_strlit("metadata");
            reveal_strlit("name");
            reveal_strlit("ranking");
            reveal_strlit("relevance_scores");
            reveal_strlit("schema");
            reveal_strlit("tool_id");
        }
        assert(members_view(m@) =~= tool_json(*self)->Object_0);
        object_of(m)
    }

    /// The record the tool is returned as at instant `now`.
    pub fn to_memory_record_at(&self, scope: Scope, now: Timestamp) -> (r: MemoryRecord)
        requires
            tool_wf(*self),
        ensures
            r@ == tool_record(*self, scope, now),
    {
        MemoryRecord {
            id: copy_string(&self.tool_id),
            memory_type: MemoryType::Tools,
            data: self.to_json(),
            metadata: Metadata::new_at(scope, now),
        }
    }

    /// The record the tool is returned as now.
    pub fn to_memory_record(&self, scope: Scope) -> (r: MemoryRecord)
        requires
            tool_wf(*self),
        ensures
            exists|now: Timestamp| now.wf() && r@ == tool_record(*self, scope, now),
    {
        let now = clock_now();
        self.to_memory_record_at(scope, now)
    }

    /// The relevance of the tool for a task type (0.5 when it has none).
    pub fn relevance_for(&self, task_type: &str) -> (r: u32)
        requires
            tool_wf(*self),
        ensures
            r == relevance_of(relevance_view(self.relevance_scores@), task_type@),
    {
        let ghost v = relevance_view(self.relevance_scores@);
        let mut i: usize = 0;
        while i < self.relevance_scores.len()
            invariant
                i <= self.relevance_scores@.len(),
                v == relevance_view(self.relevance_scores@),
                relevance_keys_unique(v),
                forall|k: int| 0 <= k < i ==> v[k].0 != task_type@,
            decreases self.relevance_scores@.len() - i,
        {
            if str_eq(self.relevance_scores[i].0.as_str(), task_type) {
                proof {
                    assert(v[i as int].0 == task_type@);
                    let c = choose|j: int| 0 <= j < v.len() && v[j].0 == task_type@;
                    if c != i as int {
                        if c < i as int {
                            assert(v[c].0 != v[i as int].0);
                        } else {
                            assert(v[i as int].0 != v[c].0);
                        }
                    }
                }
                return self.relevance_scores[i].1;
            }
            i = i + 1;
        }
        F32_HALF
    }

    /// Records a call as of instant `now` that gave `ranking`, the new
    /// ranking before it is clamped to [0, 1].
    fn record_call_at(&mut self, ranking: u32, now: Timestamp)
        requires
            old(self).call_count < u64::MAX,
            tool_wf(*old(self)),
            representable(now),
        ensures
            final(self).ranking == f32_unit_clamp(ranking),
            final(self).call_count == old(self).call_count + 1,
            final(self).last_called == Some(now),
            final(self).tool_id == old(self).tool_id,
            final(self).name == old(self).name,
            final(self).description == old(self).description,
            final(self).schema == old(self).schema,
            final(self).category == old(self).category,
            final(self).relevance_scores == old(self).relevance_scores,
            final(self).metadata == old(self).metadata,
            tool_wf(*final(self)),
    {
        self.ranking = f32_bits_unit_clamp(ranking);
        self.call_count = self.call_count + 1;
        self.last_called = Some(now);
    }

    /// Records a call as of instant `now`: `blend` computes
    /// `ranking * decay + signal * (1 - decay)` in single precision from the
    /// ranking, the success signal and the decay (both clamped to [0, 1]),
    /// and the result, clamped to [0, 1], is the new ranking.
    pub fn update_ranking_at<B: Fn(u32, u32, u32) -> u32>(
        &mut self,
        success_signal: u32,
        decay: u32,
        blend: &B,
        now: Timestamp,
    )
        requires
            old(self).call_count < u64::MAX,
            tool_wf(*old(self)),
            representable(now),
            forall|w: u32, s: u32, d: u32| call_requires(*blend, (w, s, d)),
        ensures
            exists|b: u32|
                #[trigger] call_ensures(
                    *blend,
                    (old(self).ranking, f32_unit_clamp(success_signal), f32_unit_clamp(decay)),
                    b,
                ) && final(self).ranking == f32_unit_clamp(b),
            final(self).call_count == old(self).call_count + 1,
            final(self).last_called == Some(now),
            final(self).tool_id == old(self).tool_id,
            final(self).name == old(self).name,
            final(self).description == old(self).description,
            final(self).schema == old(self).schema,
            final(self).category == old(self).category,
            final(self).relevance_scores == old(self).relevance_scores,
            final(self).metadata == old(self).metadata,
            tool_wf(*final(self)),
    {
        let b = blend(self.ranking, f32_bits_unit_clamp(success_signal), f32_bits_unit_clamp(decay));
        self.record_call_at(b, now);
    }

    /// Records a call now (see `update_ranking_at`).
    pub fn update_ranking<B: Fn(u32, u32, u32) -> u32>(&mut self, success_signal: u32, decay: u32, blend: &B)
        requires
            old(self).call_count < u64::MAX,
            tool_wf(*old(self)),
            forall|w: u32, s: u32, d: u32| call_requires(*blend, (w, s, d)),
        ensures
            exists|b: u32|
                #[trigger] call_ensures(
                    *blend,
                    (old(self).ranking, f32_unit_clamp(success_signal), f32_unit_clamp(decay)),
                    b,
                ) && final(self).ranking == f32_unit_clamp(b),
            final(self).call_count == old(self).call_count + 1,
            exists|now: Timestamp| now.wf() && representable(now) && final(self).last_called == Some(now),
            final(self).tool_id == old(self).tool_id,
            final(self).name == old(self).name,
            final(self).description == old(self).description,
            final(self).schema == old(self).schema,
            final(self).category == old(self).category,
            final(self).relevance_scores == old(self).relevance_scores,
            final(self).metadata == old(self).metadata,
            tool_wf(*final(self)),
    {
        let now = clock_now();
        self.update_ranking_at(success_signal, decay, blend, now);
    }

    /// Sets the relevance for a task type, clamped to [0, 1].
    pub fn set_relevance(&mut self, task_type: &str, score: u32)
        requires
            tool_wf(*old(self)),
        ensures
            relevance_view(final(self).relevance_scores@) == set_relevance_entry(
                relevance_view(old(self).relevance_scores@),
                task_type@,
                f32_unit_clamp(score),
            ),
            final(self).tool_id == old(self).tool_id,
            final(self).name == old(self).name,
            final(self).description == old(self).description,
            final(self).schema == old(self).schema,
            final(self).category == old(self).category,
            final(self).ranking == old(self).ranking,
            final(self).call_count == old(self).call_count,
            final(self).last_called == old(self).last_called,
            final(self).metadata == old(self).metadata,
            tool_wf(*final(self)),
    {
        let ghost v = relevance_view(self.relevance_scores@);
        let s = f32_bits_unit_clamp(score);
        let found = find_entry(&self.relevance_scores, task_type);
        let mut rel: Vec<(String, u32)> = Vec::new();
        std::mem::swap(&mut rel, &mut self.relevance_scores);
        match found {
            Some(i) => {
                rel.set(i, (owned(task_type), s));
                proof {
                    assert(relevance_view(rel@) =~= v.update(i as int, (task_type@, s)));
                    let nv = relevance_view(rel@);
                    assert forall|a: int, b: int| 0 <= a < b < nv.len() implies nv[a].0 != nv[b].0 by {
                        assert(v[a].0 != v[b].0);
                    }
                }
            },
            None => {
                rel.push((owned(task_type), s));
                proof {
                    assert(relevance_view(rel@) =~= v.push((task_type@, s)));
                    let nv = relevance_view(rel@);
                    assert forall|a: int, b: int| 0 <= a < b < nv.len() implies nv[a].0 != nv[b].0 by {
                        if b == v.len() {
                            assert(v[a].0 != task_type@);
                        } else {
                            assert(v[a].0 != v[b].0);
                        }
                    }
                }
            },
        }
        self.relevance_scores = rel;
    }

    /// A copy of the tool.
    pub fn copy(&self) -> (r: ToolRecord)
        ensures
            r.tool_id == self.tool_id,
            r.name == self.name,
            r.description == self.description,
            r.schema@ == self.schema@,
            r.category == self.category,
            r.ranking == self.ranking,
            r.call_count == self.call_count,
            r.last_called == self.last_called,
            relevance_view(r.relevance_scores@) == relevance_view(self.relevance_scores@),
            r.metadata@ == self.metadata@,
            tool_json(r) == tool_json(*self),
            tool_wf(*self) ==> tool_wf(r),
    {
        let mut rel: Vec<(String, u32)> = Vec::new();
        let mut i: usize = 0;
        while i < self.relevance_scores.len()
            invariant
                i <= self.relevance_scores@.len(),
                relevance_view(rel@) == relevance_view(self.relevance_scores@).take(i as int),
            decreases self.relevance_scores@.len() - i,
        {
            let e = &self.relevance_scores[i];
            let k = e.0.clone();
            let ghost before = rel@;
            rel.push((k, e.1));
            assert(rel@ == before.push((k, e.1)));
            assert(relevance_view(rel@) =~= relevance_view(before).push((k@, e.1)));
            assert(*e == self.relevance_scores@[i as int]);
            assert(relevance_view(self.relevance_scores@).take(i + 1) =~= relevance_view(self.relevance_scores@).take(
                i as int,
            ).push((e.0@, e.1)));
            assert(relevance_view(rel@) =~= relevance_view(self.relevance_scores@).take(i + 1));
            i = i + 1;
        }
        assert(relevance_view(self.relevance_scores@).take(self.relevance_scores@.len() as int) =~= relevance_view(
            self.relevance_scores@,
        ));
        ToolRecord {
            tool_id: self.tool_id.clone(),
            name: self.name.clone(),
            description: self.description.clone(),
            schema: self.schema.copy(),
            category: self.category.clone(),
            ranking: self.ranking,
            call_count: self.call_count,
            last_called: self.last_called,
            relevance_scores: rel,
            metadata: self.metadata.copy(),
        }
    }
}

/// Position of the entry for key `k`.
pub open spec fn entry_index(v: Seq<(Seq<char>, u32)>, k: Seq<char>) -> Option<int> {
    if exists|i: int| 0 <= i < v.len() && v[i].0 == k {
        Some(choose|i: int| 0 <= i < v.len() && v[i].0 == k && forall|j: int| 0 <= j < i ==> v[j].0 != k)
    } else {
        None
    }
}

proof fn lemma_entry_index(v: Seq<(Seq<char>, u32)>, k: Seq<char>, i: int)
    requires
        0 <= i < v.len(),
        v[i].0 == k,
        forall|j: int| 0 <= j < i ==> v[j].0 != k,
    ensures
        entry_index(v, k) == Some(i),
{
    let c = choose|c: int| 0 <= c < v.len() && v[c].0 == k && forall|j: int| 0 <= j < c ==> v[j].0 != k;
    assert(0 <= i < v.len() && v[i].0 == k && forall|j: int| 0 <= j < i ==> v[j].0 != k);
    if c < i {
    } else if c > i {
        assert(v[i].0 != k);
    }
}

proof fn lemma_entry_index_none(v: Seq<(Seq<char>, u32)>, k: Seq<char>)
    requires
        forall|j: int| 0 <= j < v.len() ==> v[j].0 != k,
    ensures
        entry_index(v, k) is None,
{
}

/// Position of the entry for key `k`, searching from the front.
fn find_entry(v: &Vec<(String, u32)>, k: &str) -> (r: Option<usize>)
    ensures
        match r {
            Some(i) => i < v@.len() && entry_index(relevance_view(v@), k@) == Some(i as int),
            None => entry_index(relevance_view(v@), k@) is None,
        },
{
    let ghost w = relevance_view(v@);
    let mut i: usize = 0;
    while i < v.len()
        invariant
            i <= v@.len(),
            w == relevance_view(v@),
            forall|j: int| 0 <= j < i ==> w[j].0 != k@,
        decreases v@.len() - i,
    {
        if str_eq(v[i].0.as_str(), k) {
            proof {
                lemma_entry_index(w, k@, i as int);
            }
            return Some(i);
        }
        i = i + 1;
    }
    proof {
        lemma_entry_index_none(w, k@);
    }
    None
}

/// The relevance entries with the score for `k` set (replaced, or added
/// at the end).
pub open spec fn set_relevance_entry(v: Seq<(Seq<char>, u32)>, k: Seq<char>, s: u32) -> Seq<(Seq<char>, u32)> {
    match entry_index(v, k) {
        Some(i) => v.update(i, (k, s)),
        None => v.push((k, s)),
    }
}

// ---------------------------------------------------------------------------
// Tool payloads
// ---------------------------------------------------------------------------

/// The payload members the registry keeps as tool fields.
pub open spec fn known_field(k: Seq<char>) -> bool {
    k == "tool_id"@ || k == "name"@ || k == "description"@ || k == "schema"@ || k == "category"@
        || k == "ranking"@ || k == "relevance_scores"@ || k == "metadata"@ || k == "key"@
}

/// The string member `k` of a payload, if it is one.
pub open spec fn str_member(data: JsonView, k: Seq<char>) -> Option<Seq<char>> {
    match json_get(data, k) {
        Some(v) => json_as_str(v),
        None => None,
    }
}

/// The metadata a stored tool gets: the payload's `metadata` member (an
/// empty object when absent) with, when it is an object, every payload
/// member that is not a tool field added.
pub open spec fn tool_metadata(data: JsonView) -> JsonView {
    let base = match json_get(data, "metadata"@) {
        Some(v) => v,
        None => JsonView::Object(Seq::empty()),
    };
    match (base, data) {
        (JsonView::Object(m), JsonView::Object(d)) => JsonView::Object(custom_fields(m, d)),
        _ => base,
    }
}

/// `m` with every member of `d` that is not a tool field set in turn.
pub open spec fn custom_fields(m: Seq<(Seq<char>, JsonView)>, d: Seq<(Seq<char>, JsonView)>) -> Seq<(Seq<char>, JsonView)>
    decreases d.len(),
{
    if d.len() == 0 {
        m
    } else {
        let p = custom_fields(m, d.drop_last());
        if known_field(d.last().0) {
            p
        } else {
            object_set(p, d.last().0, d.last().1)
        }
    }
}

/// A payload number narrowed to a single (`as_f64() as f32`).
pub open spec fn payload_single(v: JsonView) -> Option<u32> {
    match json_as_f64(v) {
        Some(b) => Some(f32_of_f64(b) as u32),
        None => None,
    }
}

/// The relevance entries a payload's `relevance_scores` members give:
/// each member that is a number set in turn, narrowed and clamped.
pub open spec fn relevance_from(m: Seq<(Seq<char>, JsonView)>) -> Seq<(Seq<char>, u32)>
    decreases m.len(),
{
    if m.len() == 0 {
        Seq::empty()
    } else {
        let p = relevance_from(m.drop_last());
        match payload_single(m.last().1) {
            Some(x) => set_relevance_entry(p, m.last().0, f32_unit_clamp(x)),
            None => p,
        }
    }
}

/// The relevance entries of a stored payload.
pub open spec fn payload_relevance(data: JsonView) -> Seq<(Seq<char>, u32)> {
    match json_get(data, "relevance_scores"@) {
        Some(JsonView::Object(m)) => relevance_from(m),
        _ => Seq::empty(),
    }
}

/// Whether `t` is the tool a payload stored under `key` becomes: the id
/// from `tool_id` (else the key), the name (else the id), description
/// (else empty), schema (else null), category (else "general"), ranking
/// (else 0.5), relevance scores, never called, and the metadata of
/// `tool_metadata`.
pub open spec fn payload_tool(t: ToolRecord, key: Seq<char>, data: JsonView) -> bool {
    let id = match str_member(data, "tool_id"@) {
        Some(s) => s,
        None => key,
    };
    &&& t.tool_id@ == id
    &&& t.name@ == match str_member(data, "name"@) {
        Some(s) => s,
        None => id,
    }
    &&& t.description@ == match str_member(data, "description"@) {
        Some(s) => s,
        None => Seq::empty(),
    }
    &&& t.schema@ == match json_get(data, "schema"@) {
        Some(v) => v,
        None => JsonView::Null,
    }
    &&& t.category@ == match str_member(data, "category"@) {
        Some(s) => s,
        None => "general"@,
    }
    &&& t.ranking == match json_get(data, "ranking"@) {
        Some(v) => match payload_single(v) {
            Some(x) => x,
            None => F32_HALF,
        },
        None => F32_HALF,
    }
    &&& t.call_count == 0
    &&& t.last_called is None
    &&& relevance_view(t.relevance_scores@) == payload_relevance(data)
    &&& t.metadata@ == tool_metadata(data)
}

/// Whether `n` is tool `o` after an update with payload `d`: `name`,
/// `description` and `category` strings, a `ranking` number (narrowed)
/// and a `schema` replace the fields; everything else is kept.
pub open spec fn updated_tool(o: ToolRecord, n: ToolRecord, d: JsonView) -> bool {
    &&& n.tool_id == o.tool_id
    &&& n.name@ == match str_member(d, "name"@) {
        Some(s) => s,
        None => o.name@,
    }
    &&& n.description@ == match str_member(d, "description"@) {
        Some(s) => s,
        None => o.description@,
    }
    &&& n.category@ == match str_member(d, "category"@) {
        Some(s) => s,
        None => o.category@,
    }
    &&& n.ranking == match json_get(d, "ranking"@) {
        Some(v) => match payload_single(v) {
            Some(x) => x,
            None => o.ranking,
        },
        None => o.ranking,
    }
    &&& n.schema@ == match json_get(d, "schema"@) {
        Some(v) => v,
        None => o.schema@,
    }
    &&& n.call_count == o.call_count
    &&& n.last_called == o.last_called
    &&& relevance_view(n.relevance_scores@) == relevance_view(o.relevance_scores@)
    &&& n.metadata@ == o.metadata@
}

/// The registry with tool `t` registered: it replaces the tool with its
/// id, or is added at the end.
pub open spec fn registered(v: Seq<ToolRecord>, t: ToolRecord) -> Seq<ToolRecord> {
    if exists|i: int| 0 <= i < v.len() && v[i].tool_id@ == t.tool_id@ {
        v.update(choose|i: int| 0 <= i < v.len() && v[i].tool_id@ == t.tool_id@, t)
    } else {
        v.push(t)
    }
}

/// The string member `k` of a payload, as text.
pub(crate) fn member_str<'a>(data: &'a Json, k: &str) -> (r: Option<&'a str>)
    ensures
        match str_member(data@, k@) {
            Some(s) => r matches Some(x) && x@ == s,
            None => r is None,
        },
{
    match data.get(k) {
        Some(v) => v.as_str(),
        None => None,
    }
}

/// The number member of a payload narrowed to a single.
pub(crate) fn member_single(data: &Json, k: &str) -> (r: Option<u32>)
    ensures
        r == match json_get(data@, k@) {
            Some(v) => payload_single(v),
            None => None,
        },
{
    match data.get(k) {
        Some(v) => match v.as_f64_bits() {
            Some(b) => Some(f32_bits_of_f64(b)),
            None => None,
        },
        None => None,
    }
}

/// The metadata a payload gives a stored tool (see `tool_metadata`).
fn payload_metadata(data: &Json) -> (r: Json)
    ensures
        r@ == tool_metadata(data@),
{
    proof {
        reveal_strlit("metadata");
    }
    let base = match data.get("metadata") {
        Some(v) => v.copy(),
        None => {
            let e: Vec<(String, Json)> = Vec::new();
            let ghost ev = e@;
            let j = object_of(e);
            assert(members_view(ev) =~= Seq::<(Seq<char>, JsonView)>::empty());
            j
        },
    };
    match base {
        Json::Object(mut m) => match data {
            Json::Object(d) => {
                let ghost m0 = members_view(m@);
                let ghost dv = members_view(d@);
                proof {
                    lemma_object_view(m);
                    lemma_object_view(*d);
                }
                let mut i: usize = 0;
                while i < d.len()
                    invariant
                        i <= d@.len(),
                        dv == members_view(d@),
                        members_view(m@) == custom_fields(m0, dv.take(i as int)),
                    decreases d@.len() - i,
                {
                    let k = d[i].0.as_str();
                    proof {
                        reveal_strlit("tool_id");
                        reveal_strlit("name");
                        reveal_strlit("description");
                        reveal_strlit("schema");
                        reveal_strlit("category");
                        reveal_strlit("ranking");
                        reveal_strlit("relevance_scores");
                        reveal_strlit("key");
                        assert(dv[i as int] == (d@[i as int].0@, d@[i as int].1@));
                        assert(dv.take(i + 1).drop_last() =~= dv.take(i as int));
                    }
                    let known = str_eq(k, "tool_id") || str_eq(k, "name") || str_eq(k, "description")
                        || str_eq(k, "schema") || str_eq(k, "category") || str_eq(k, "ranking")
                        || str_eq(k, "relevance_scores") || str_eq(k, "metadata") || str_eq(k, "key");
                    if !known {
                        set_member(&mut m, copy_string(&d[i].0), d[i].1.copy());
                    }
                    i = i + 1;
                }
                proof {
                    assert(dv.take(d@.len() as int) =~= dv);
                }
                object_of(m)
            },
            _ => Json::Object(m),
        },
        other => other,
    }
}

// ---------------------------------------------------------------------------
// Loading: ranking the candidates
// ---------------------------------------------------------------------------

/// Whether `c` is a copy of tool `t`.
pub open spec fn tool_copy(c: ToolRecord, t: ToolRecord) -> bool {
    &&& c.tool_id == t.tool_id
    &&& c.name == t.name
    &&& c.description == t.description
    &&& c.schema@ == t.schema@
    &&& c.category == t.category
    &&& c.ranking == t.ranking
    &&& c.call_count == t.call_count
    &&& c.last_called == t.last_called
    &&& relevance_view(c.relevance_scores@) == relevance_view(t.relevance_scores@)
    &&& c.metadata@ == t.metadata@
}

/// The number of tools a load returns at most: the limit, else 10.
pub open spec fn load_limit(m: Modifiers) -> usize {
    match m.limit {
        Some(n) => n,
        None => 10,
    }
}

/// `load_limit`.
pub fn load_limit_of(m: &Modifiers) -> (r: usize)
    ensures
        r == load_limit(*m),
{
    match m.limit {
        Some(n) => n,
        None => 10,
    }
}

/// The records of a load: the tools paired with their scores, sorted
/// stably by descending score, the first `limit` of them.
pub open spec fn ranked_records(
    tools: Seq<ToolRecord>,
    scores: Seq<u32>,
    limit: usize,
    scope: Scope,
    now: Timestamp,
) -> Seq<RecordView> {
    let pairs = Seq::new(tools.len(), |i: int| (scores[i], tool_record(tools[i], scope, now)));
    unscored(limited(sort_stable(pairs, score_gt()), Some(limit)))
}

/// Ranks candidate tools by their scores (see `ranked_records`).
pub fn rank_tools(cands: Vec<ToolRecord>, scores: &Vec<u32>, limit: usize, scope: Scope, now: Timestamp) -> (r: Vec<
    MemoryRecord,
>)
    requires
        scores@.len() == cands@.len(),
        forall|i: int| 0 <= i < cands@.len() ==> tool_wf(#[trigger] cands@[i]),
    ensures
        record_views(r@) == ranked_records(cands@, scores@, limit, scope, now),
{
    let ghost pairs = Seq::new(cands@.len(), |i: int| (scores@[i], tool_record(cands@[i], scope, now)));
    let n = cands.len();
    let mut v: Vec<(u32, MemoryRecord)> = Vec::new();
    let mut i: usize = 0;
    while i < n
        invariant
            n == cands@.len(),
            scores@.len() == n,
            i <= n,
            forall|k: int| 0 <= k < cands@.len() ==> tool_wf(#[trigger] cands@[k]),
            pairs == Seq::new(cands@.len(), |k: int| (scores@[k], tool_record(cands@[k], scope, now))),
            scored_views(v@) == pairs.take(i as int),
        decreases n - i,
    {
        let rec = cands[i].to_memory_record_at(scope, now);
        let ghost before = v@;
        let ghost rv = rec@;
        v.push((scores[i], rec));
        assert(scored_views(v@) =~= scored_views(before).push((scores@[i as int], rv)));
        assert(pairs[i as int] == (scores@[i as int], rv));
        assert(scored_views(v@) =~= pairs.take(i + 1));
        i = i + 1;
    }
    assert(pairs.take(n as int) =~= pairs);
    let sorted = sort_scored(v);
    first_records(sorted, Some(limit))
}

/// The tools satisfying a predicate, in registry order.
pub open spec fn matching_tools(b: ToolsBackend, p: Predicate) -> Seq<ToolRecord> {
    b.tools().filter(|t: ToolRecord| tool_matches(t, p))
}

/// Whether `score` is what a load ranks a tool by: its ranking when no
/// task is named, else what `weigh` gives for its ranking and its relevance
/// for the task.
pub open spec fn score_ok<W: Fn(u32, u32) -> u32>(weigh: W, t: ToolRecord, task: Option<Seq<char>>, score: u32) -> bool {
    match task {
        None => score == t.ranking,
        Some(tt) => call_ensures(weigh, (t.ranking, relevance_of(relevance_view(t.relevance_scores@), tt)), score),
    }
}

/// Whether `scores` are what a load ranks the candidates by.
pub open spec fn load_scores<W: Fn(u32, u32) -> u32>(
    weigh: W,
    cands: Seq<ToolRecord>,
    task: Option<Seq<char>>,
    scores: Seq<u32>,
) -> bool {
    scores.len() == cands.len() && forall|i: int| 0 <= i < cands.len() ==> score_ok(weigh, cands[i], task, #[trigger] scores[i])
}

/// The scores of candidates ranked on ranking alone.
pub fn rankings_of(cands: &Vec<ToolRecord>) -> (r: Vec<u32>)
    ensures
        r@ == cands@.map_values(|t: ToolRecord| t.ranking),
{
    let mut r: Vec<u32> = Vec::new();
    let mut i: usize = 0;
    while i < cands.len()
        invariant
            i <= cands@.len(),
            r@ == cands@.take(i as int).map_values(|t: ToolRecord| t.ranking),
        decreases cands@.len() - i,
    {
        r.push(cands[i].ranking);
        assert(r@ =~= cands@.take(i + 1).map_values(|t: ToolRecord| t.ranking));
        i = i + 1;
    }
    assert(cands@.take(cands@.len() as int) =~= cands@);
    r
}

/// Whether a condition names the task a load is for: its field is `task`
/// or `task_type` and its value a string.
pub open spec fn task_condition(c: Condition) -> bool {
    (c.field@ == "task"@ || c.field@ == "task_type"@) && c.value is String
}

/// The task of the first task condition from position `i` on.
pub open spec fn first_task(cs: Seq<Condition>, i: int) -> Option<Seq<char>>
    decreases cs.len() - i,
{
    if i < 0 || i >= cs.len() {
        None
    } else if task_condition(cs[i]) {
        match cs[i].value {
            Value::String(s) => Some(s@),
            _ => None,
        }
    } else {
        first_task(cs, i + 1)
    }
}

/// The task type a load predicate names: the first `task`/`task_type`
/// condition with a string value of a `WHERE` predicate.
pub open spec fn task_type_of(p: Predicate) -> Option<Seq<char>> {
    match p {
        Predicate::Where { conditions } => first_task(conditions@, 0),
        _ => None,
    }
}

/// The task type a load predicate names (see `task_type_of`).
pub fn load_task_type(p: &Predicate) -> (r: Option<String>)
    ensures
        match task_type_of(*p) {
            Some(s) => r matches Some(x) && x@ == s,
            None => r is None,
        },
{
    proof {
        reveal_strlit("task");
        reveal_strlit("task_type");
    }
    match p {
        Predicate::Where { conditions } => {
            let mut i: usize = 0;
            while i < conditions.len()
                invariant
                    i <= conditions@.len(),
                    first_task(conditions@, 0) == first_task(conditions@, i as int),
                    task_type_of(*p) == first_task(conditions@, 0),
                decreases conditions@.len() - i,
            {
                let c = &conditions[i];
                if str_eq(c.field.as_str(), "task") || str_eq(c.field.as_str(), "task_type") {
                    match &c.value {
                        Value::String(s) => {
                            assert(task_condition(conditions@[i as int]));
                            assert(first_task(conditions@, i as int) == Some(s@));
                            let r = copy_string(s);
                            return Some(r);
                        },
                        _ => {
                            assert(!task_condition(conditions@[i as int]));
                        },
                    }
                } else {
                    assert(!task_condition(conditions@[i as int]));
                }
                i = i + 1;
            }
            assert(first_task(conditions@, i as int) is None);
            None
        },
        _ => None,
    }
}

/// The tool a payload stored under `key` becomes (see `payload_tool`).
fn tool_from_payload(key: &str, data: &Json) -> (r: ToolRecord)
    ensures
        payload_tool(r, key@, data@),
        tool_wf(r),
{
    proof {
        reveal_strlit("tool_id");
        reveal_strlit("name");
        reveal_strlit("description");
        reveal_strlit("schema");
        reveal_strlit("category");
        reveal_strlit("ranking");
        reveal_strlit("general");
        reveal_strlit("");
    }
    let tool_id: String = match member_str(data, "tool_id") {
        Some(s) => owned(s),
        None => owned(key),
    };
    let name: String = match member_str(data, "name") {
        Some(s) => owned(s),
        None => tool_id.clone(),
    };
    let description: String = match member_str(data, "description") {
        Some(s) => owned(s),
        None => String::new(),
    };
    let schema = match data.get("schema") {
        Some(v) => v.copy(),
        None => Json::Null,
    };
    let category: String = match member_str(data, "category") {
        Some(s) => owned(s),
        None => owned("general"),
    };
    let mut tool = ToolRecord::new(tool_id.as_str(), name.as_str(), description.as_str(), schema, category.as_str());
    match member_single(data, "ranking") {
        Some(x) => {
            tool.ranking = x;
        },
        None => {},
    }
    set_payload_relevance(&mut tool, data);
    tool.metadata = payload_metadata(data);
    tool
}

/// Sets the relevance entries a payload gives on a fresh tool.
fn set_payload_relevance(tool: &mut ToolRecord, data: &Json)
    requires
        tool_wf(*old(tool)),
        old(tool).relevance_scores@.len() == 0,
    ensures
        relevance_view(final(tool).relevance_scores@) == payload_relevance(data@),
        tool_wf(*final(tool)),
        final(tool).tool_id == old(tool).tool_id,
        final(tool).name == old(tool).name,
        final(tool).description == old(tool).description,
        final(tool).schema == old(tool).schema,
        final(tool).category == old(tool).category,
        final(tool).ranking == old(tool).ranking,
        final(tool).call_count == old(tool).call_count,
        final(tool).last_called == old(tool).last_called,
        final(tool).metadata == old(tool).metadata,
{
    proof {
        reveal_strlit("relevance_scores");
    }
    let ghost t0 = *tool;
    match data.get("relevance_scores") {
        Some(rv) => match rv {
            Json::Object(m) => {
                let ghost mv = members_view(m@);
                proof {
                    lemma_object_view(*m);
                    assert(relevance_view(tool.relevance_scores@) =~= relevance_from(mv.take(0)));
                }
                let mut i: usize = 0;
                while i < m.len()
                    invariant
                        i <= m@.len(),
                        mv == members_view(m@),
                        tool_wf(*tool),
                        tool.tool_id == t0.tool_id,
                        tool.name == t0.name,
                        tool.description == t0.description,
                        tool.schema == t0.schema,
                        tool.category == t0.category,
                        tool.ranking == t0.ranking,
                        tool.call_count == t0.call_count,
                        tool.last_called == t0.last_called,
                        tool.metadata == t0.metadata,
                        relevance_view(tool.relevance_scores@) == relevance_from(mv.take(i as int)),
                    decreases m@.len() - i,
                {
                    proof {
                        assert(mv[i as int] == (m@[i as int].0@, m@[i as int].1@));
                        assert(mv.take(i + 1).drop_last() =~= mv.take(i as int));
                    }
                    match m[i].1.as_f64_bits() {
                        Some(b) => {
                            tool.set_relevance(m[i].0.as_str(), f32_bits_of_f64(b));
                        },
                        None => {},
                    }
                    i = i + 1;
                }
                proof {
                    assert(mv.take(m@.len() as int) =~= mv);
                }
            },
            _ => {
                assert(relevance_view(tool.relevance_scores@) =~= Seq::<(Seq<char>, u32)>::empty());
            },
        },
        None => {
            assert(relevance_view(tool.relevance_scores@) =~= Seq::<(Seq<char>, u32)>::empty());
        },
    }
}

// ---------------------------------------------------------------------------
// The backend
// ---------------------------------------------------------------------------

/// Whether a tool satisfies a predicate: `ALL` every tool; `KEY` on
/// `tool_id`/`id`, `name` or `category` with a string equal to that
/// field; `WHERE` when the tool's JSON form satisfies every condition.
pub open spec fn tool_matches(t: ToolRecord, p: Predicate) -> bool {
    match p {
        Predicate::All => true,
        Predicate::Key { field, value } => match value {
            Value::String(s) => if field@ == "tool_id"@ || field@ == "id"@ {
                s@ == t.tool_id@
            } else if field@ == "name"@ {
                s@ == t.name@
            } else if field@ == "category"@ {
                s@ == t.category@
            } else {
                false
            },
            _ => false,
        },
        Predicate::Where { conditions } => conditions_hold(conditions@, tool_json(t)),
        _ => false,
    }
}

/// Whether a tool satisfies a predicate.
fn matches_predicate(t: &ToolRecord, p: &Predicate) -> (r: bool)
    requires
        tool_wf(*t),
    ensures
        r == tool_matches(*t, *p),
{
    proof {
        reveal_strlit("tool_id");
        reveal_strlit("id");
        reveal_strlit("name");
        reveal_strlit("category");
    }
    match p {
        Predicate::All => true,
        Predicate::Key { field, value } => match value {
            Value::String(s) => {
                if str_eq(field.as_str(), "tool_id") || str_eq(field.as_str(), "id") {
                    str_eq(s.as_str(), t.tool_id.as_str())
                } else if str_eq(field.as_str(), "name") {
                    str_eq(s.as_str(), t.name.as_str())
                } else if str_eq(field.as_str(), "category") {
                    str_eq(s.as_str(), t.category.as_str())
                } else {
                    false
                }
            },
            _ => false,
        },
        Predicate::Where { conditions } => {
            let j = t.to_json();
            all_conditions_hold(conditions, &j)
        },
        _ => false,
    }
}

/// The tool ids of a list of tools.
pub open spec fn tool_ids(v: Seq<ToolRecord>) -> Seq<Seq<char>> {
    v.map_values(|t: ToolRecord| t.tool_id@)
}

/// Every tool is well formed and no two share an id.
pub open spec fn tools_wf(v: Seq<ToolRecord>) -> bool {
    &&& forall|i: int| 0 <= i < v.len() ==> tool_wf(#[trigger] v[i])
    &&& forall|i: int, j: int| 0 <= i < j < v.len() ==> v[i].tool_id@ != v[j].tool_id@
}

/// Whether two tools have the same id, texts, schema, relevance entries
/// and metadata.
pub open spec fn same_definition(n: ToolRecord, o: ToolRecord) -> bool {
    &&& n.tool_id == o.tool_id
    &&& n.name == o.name
    &&& n.description == o.description
    &&& n.schema@ == o.schema@
    &&& n.category == o.category
    &&& relevance_view(n.relevance_scores@) == relevance_view(o.relevance_scores@)
    &&& n.metadata@ == o.metadata@
}

/// The registry after a call of tool `id` at `now` with new ranking
/// `ranking`: that tool gets the clamped ranking, one more call and the
/// instant; the others are unchanged.
pub open spec fn ranking_updated(
    old_t: Seq<ToolRecord>,
    new_t: Seq<ToolRecord>,
    id: Seq<char>,
    ranking: u32,
    now: Timestamp,
) -> bool {
    &&& new_t.len() == old_t.len()
    &&& forall|i: int| 0 <= i < old_t.len() ==> {
        let o = #[trigger] old_t[i];
        let n = new_t[i];
        if o.tool_id@ == id {
            &&& n.ranking == f32_unit_clamp(ranking)
            &&& n.call_count == o.call_count + 1
            &&& n.last_called == Some(now)
            &&& same_definition(n, o)
        } else {
            n == o
        }
    }
}

/// The tool registry.
pub struct ToolsBackend {
    tools: Vec<ToolRecord>,
    decay_factor: u32,
    default_scope: Scope,
}

impl ToolsBackend {
    #[verifier::type_invariant]
    spec fn inv(self) -> bool {
        tools_wf(self.tools@)
    }

    /// The tools, in the order their ids were first registered.
    pub closed spec fn tools(self) -> Seq<ToolRecord> {
        self.tools@
    }

    /// The decay of rankings (an `f32` bit pattern).
    pub closed spec fn decay(self) -> u32 {
        self.decay_factor
    }

    /// The scope tools are returned with.
    pub closed spec fn scope(self) -> Scope {
        self.default_scope
    }

    /// An empty registry: decay 0.9, tools shared.
    pub fn new() -> (r: ToolsBackend)
        ensures
            r.tools().len() == 0,
            r.decay() == F32_DECAY,
            r.scope() == Scope::Shared,
    {
        ToolsBackend { tools: Vec::new(), decay_factor: F32_DECAY, default_scope: Scope::Shared }
    }

    /// An empty registry with a decay, clamped to [0, 1].
    pub fn with_decay_factor(decay_factor: u32) -> (r: ToolsBackend)
        ensures
            r.tools().len() == 0,
            r.decay() == f32_unit_clamp(decay_factor),
            r.scope() == Scope::Shared,
    {
        ToolsBackend { tools: Vec::new(), decay_factor: f32_bits_unit_clamp(decay_factor), default_scope: Scope::Shared }
    }

    /// The decay of rankings.
    pub fn decay_factor(&self) -> (r: u32)
        ensures
            r == self.decay(),
    {
        self.decay_factor
    }

    /// Position of the tool with an id.
    fn find(&self, tool_id: &str) -> (r: Option<usize>)
        ensures
            match r {
                Some(i) => i < self.tools().len() && self.tools()[i as int].tool_id@ == tool_id@,
                None => forall|i: int| 0 <= i < self.tools().len() ==> self.tools()[i].tool_id@ != tool_id@,
            },
    {
        let mut i: usize = 0;
        while i < self.tools.len()
            invariant
                i <= self.tools@.len(),
                forall|k: int| 0 <= k < i ==> self.tools@[k].tool_id@ != tool_id@,
            decreases self.tools@.len() - i,
        {
            if str_eq(self.tools[i].tool_id.as_str(), tool_id) {
                return Some(i);
            }
            i = i + 1;
        }
        None
    }

    /// Registers a tool, replacing the tool with the same id.
    pub fn register(&mut self, tool: ToolRecord)
        requires
            tool_wf(tool),
        ensures
            final(self).tools() == registered(old(self).tools(), tool),
            final(self).decay() == old(self).decay(),
            final(self).scope() == old(self).scope(),
    {
        proof {
            use_type_invariant(&*self);
        }
        let found = self.find(tool.tool_id.as_str());
        let ghost old_t = self.tools@;
        let ghost id = tool.tool_id@;
        let mut tools = Vec::new();
        std::mem::swap(&mut tools, &mut self.tools);
        match found {
            Some(i) => {
                tools.set(i, tool);
                proof {
                    assert forall|a: int, b: int| 0 <= a < b < tools@.len() implies tools@[a].tool_id@ != tools@[b].tool_id@ by {
                        if a == i as int {
                            assert(old_t[a].tool_id@ != old_t[b].tool_id@);
                        } else if b == i as int {
                            assert(old_t[a].tool_id@ != old_t[b].tool_id@);
                        } else {
                            assert(old_t[a].tool_id@ != old_t[b].tool_id@);
                        }
                    }
                    let c = choose|c: int| 0 <= c < old_t.len() && old_t[c].tool_id@ == id;
                    assert(0 <= c < old_t.len() && old_t[c].tool_id@ == id);
                    if c != i as int {
                        if c < i as int {
                            assert(old_t[c].tool_id@ != old_t[i as int].tool_id@);
                        } else {
                            assert(old_t[i as int].tool_id@ != old_t[c].tool_id@);
                        }
                    }
                    assert(tools@ =~= old_t.update(c, tools@[i as int]));
                }
            },
            None => {
                tools.push(tool);
                proof {
                    assert forall|a: int, b: int| 0 <= a < b < tools@.len() implies tools@[a].tool_id@ != tools@[b].tool_id@ by {
                        if b == old_t.len() {
                        } else {
                            assert(old_t[a].tool_id@ != old_t[b].tool_id@);
                        }
                    }
                    assert(tools@ =~= old_t.push(tools@[old_t.len() as int]));
                }
            },
        }
        self.tools = tools;
    }

    /// Records a call of a tool as of instant `now` with a success signal;
    /// the tool's ranking moves toward it by the registry's decay (see
    /// `ToolRecord::update_ranking_at`).  False when no tool has the id.
    pub fn update_ranking_at<B: Fn(u32, u32, u32) -> u32>(
        &mut self,
        tool_id: &str,
        success_signal: u32,
        blend: &B,
        now: Timestamp,
    ) -> (r: bool)
        requires
            representable(now),
            forall|i: int|
                0 <= i < old(self).tools().len() && (#[trigger] old(self).tools()[i]).tool_id@ == tool_id@
                    ==> old(self).tools()[i].call_count < u64::MAX,
            forall|w: u32, s: u32, d: u32| call_requires(*blend, (w, s, d)),
        ensures
            r == (exists|i: int| 0 <= i < old(self).tools().len() && old(self).tools()[i].tool_id@ == tool_id@),
            !r ==> final(self).tools() == old(self).tools(),
            forall|i: int|
                0 <= i < old(self).tools().len() && (#[trigger] old(self).tools()[i]).tool_id@ == tool_id@ ==> exists|b: u32|
                    #[trigger] call_ensures(
                        *blend,
                        (old(self).tools()[i].ranking, f32_unit_clamp(success_signal), f32_unit_clamp(old(self).decay())),
                        b,
                    ) && ranking_updated(old(self).tools(), final(self).tools(), tool_id@, b, now),
            final(self).decay() == old(self).decay(),
            final(self).scope() == old(self).scope(),
    {
        proof {
            use_type_invariant(&*self);
        }
        let ghost old_t = self.tools@;
        match self.find(tool_id) {
            Some(i) => {
                let mut tools = Vec::new();
                std::mem::swap(&mut tools, &mut self.tools);
                let mut t = tools[i].copy();
                proof {
                    assert(tool_wf(old_t[i as int]));
                }
                t.update_ranking_at(success_signal, self.decay_factor, blend, now);
                let ghost b = choose|b: u32|
                    #[trigger] call_ensures(
                        *blend,
                        (old_t[i as int].ranking, f32_unit_clamp(success_signal), f32_unit_clamp(self.decay_factor)),
                        b,
                    ) && t.ranking == f32_unit_clamp(b);
                tools.set(i, t);
                proof {
                    assert forall|a: int, c: int| 0 <= a < c < tools@.len() implies tools@[a].tool_id@ != tools@[c].tool_id@ by {
                        assert(old_t[a].tool_id@ != old_t[c].tool_id@);
                    }
                    assert forall|k: int| 0 <= k < old_t.len() && k != i as int implies old_t[k].tool_id@ != tool_id@ by {
                        if k < i as int {
                            assert(old_t[k].tool_id@ != old_t[i as int].tool_id@);
                        } else {
                            assert(old_t[i as int].tool_id@ != old_t[k].tool_id@);
                        }
                    }
                    assert(ranking_updated(old_t, tools@, tool_id@, b, now));
                }
                self.tools = tools;
                true
            },
            None => false,
        }
    }

    /// Records a call of a tool now with a success signal (see
    /// `update_ranking_at`); false when no tool has the id.
    pub fn update_ranking<B: Fn(u32, u32, u32) -> u32>(&mut self, tool_id: &str, success_signal: u32, blend: &B) -> (r: bool)
        requires
            forall|i: int|
                0 <= i < old(self).tools().len() && (#[trigger] old(self).tools()[i]).tool_id@ == tool_id@
                    ==> old(self).tools()[i].call_count < u64::MAX,
            forall|w: u32, s: u32, d: u32| call_requires(*blend, (w, s, d)),
        ensures
            r == (exists|i: int| 0 <= i < old(self).tools().len() && old(self).tools()[i].tool_id@ == tool_id@),
            !r ==> final(self).tools() == old(self).tools(),
            exists|now: Timestamp|
                now.wf() && forall|i: int|
                    0 <= i < old(self).tools().len() && (#[trigger] old(self).tools()[i]).tool_id@ == tool_id@ ==> exists|b: u32|
                        #[trigger] call_ensures(
                            *blend,
                            (old(self).tools()[i].ranking, f32_unit_clamp(success_signal), f32_unit_clamp(old(self).decay())),
                            b,
                        ) && ranking_updated(old(self).tools(), final(self).tools(), tool_id@, b, now),
            final(self).decay() == old(self).decay(),
            final(self).scope() == old(self).scope(),
    {
        let now = clock_now();
        self.update_ranking_at(tool_id, success_signal, blend, now)
    }

    /// Sets the relevance of a tool for a task type, clamped to [0, 1];
    /// false when no tool has the id.
    pub fn set_relevance(&mut self, tool_id: &str, task_type: &str, score: u32) -> (r: bool)
        ensures
            r == (exists|i: int| 0 <= i < old(self).tools().len() && old(self).tools()[i].tool_id@ == tool_id@),
            !r ==> final(self).tools() == old(self).tools(),
            final(self).tools().len() == old(self).tools().len(),
            forall|i: int| 0 <= i < old(self).tools().len() ==> {
                let o = #[trigger] old(self).tools()[i];
                let n = final(self).tools()[i];
                if o.tool_id@ == tool_id@ {
                    relevance_view(n.relevance_scores@) == set_relevance_entry(
                        relevance_view(o.relevance_scores@),
                        task_type@,
                        f32_unit_clamp(score),
                    ) && n.tool_id == o.tool_id && n.ranking == o.ranking
                } else {
                    n == o
                }
            },
    {
        proof {
            use_type_invariant(&*self);
        }
        let ghost old_t = self.tools@;
        match self.find(tool_id) {
            Some(i) => {
                let mut tools = Vec::new();
                std::mem::swap(&mut tools, &mut self.tools);
                let mut t = tools[i].copy();
                proof {
                    assert(tool_wf(old_t[i as int]));
                }
                t.set_relevance(task_type, score);
                tools.set(i, t);
                proof {
                    assert forall|a: int, b: int| 0 <= a < b < tools@.len() implies tools@[a].tool_id@ != tools@[b].tool_id@ by {
                        assert(old_t[a].tool_id@ != old_t[b].tool_id@);
                    }
                    assert forall|k: int| 0 <= k < old_t.len() && k != i as int implies old_t[k].tool_id@ != tool_id@ by {
                        if k < i as int {
                            assert(old_t[k].tool_id@ != old_t[i as int].tool_id@);
                        } else {
                            assert(old_t[i as int].tool_id@ != old_t[k].tool_id@);
                        }
                    }
                }
                self.tools = tools;
                true
            },
            None => false,
        }
    }

    /// A copy of the tool with an id.
    pub fn get(&self, tool_id: &str) -> (r: Option<ToolRecord>)
        ensures
            match r {
                Some(t) => exists|i: int| 0 <= i < self.tools().len() && self.tools()[i].tool_id@ == tool_id@
                    && tool_json(t) == tool_json(self.tools()[i]) && t.ranking == self.tools()[i].ranking
                    && t.call_count == self.tools()[i].call_count,
                None => forall|i: int| 0 <= i < self.tools().len() ==> self.tools()[i].tool_id@ != tool_id@,
            },
    {
        match self.find(tool_id) {
            Some(i) => Some(self.tools[i].copy()),
            None => None,
        }
    }

    /// The records of the tools satisfying `p` at instant `now`, in
    /// registry order.
    fn matching_records(&self, p: &Predicate, now: Timestamp) -> (r: Vec<MemoryRecord>)
        ensures
            record_views(r@) == self.tools().filter(|t: ToolRecord| tool_matches(t, *p)).map_values(
                |t: ToolRecord| tool_record(t, self.scope(), now),
            ),
    {
        proof {
            use_type_invariant(self);
        }
        let ghost s = self.tools@;
        let ghost pred = |t: ToolRecord| tool_matches(t, *p);
        let ghost f = |t: ToolRecord| tool_record(t, self.scope(), now);
        let mut out: Vec<MemoryRecord> = Vec::new();
        let mut i: usize = 0;
        while i < self.tools.len()
            invariant
                i <= self.tools@.len(),
                s == self.tools@,
                tools_wf(s),
                pred == (|t: ToolRecord| tool_matches(t, *p)),
                f == (|t: ToolRecord| tool_record(t, self.scope(), now)),
                record_views(out@) == s.take(i as int).filter(pred).map_values(f),
            decreases self.tools@.len() - i,
        {
            let hit = matches_predicate(&self.tools[i], p);
            proof {
                crate::seqs::lemma_filter_step(s, pred, i as int);
            }
            if hit {
                let rec = self.tools[i].to_memory_record_at(self.default_scope, now);
                let ghost before = out@;
                out.push(rec);
                assert(out@ == before.push(rec));
                assert(record_views(out@) =~= record_views(before).push(f(s[i as int])));
                assert(record_views(out@) =~= s.take(i + 1).filter(pred).map_values(f));
            } else {
                assert(record_views(out@) =~= s.take(i + 1).filter(pred).map_values(f));
            }
            i = i + 1;
        }
        assert(s.take(s.len() as int) =~= s);
        out
    }

    /// The tools satisfying `p` at instant `now`: scope and namespace
    /// filters, then the limit.
    pub fn lookup_at(&self, p: &Predicate, m: &Modifiers, now: Timestamp) -> (r: Vec<MemoryRecord>)
        ensures
            record_views(r@) == tools_lookup(*self, *p, *m, now),
    {
        let found = self.matching_records(p, now);
        let mut scoped = scoped_records(found, m);
        match m.limit {
            Some(n) => truncate_records(&mut scoped, n),
            None => {},
        }
        scoped
    }

    /// The tools satisfying `p` now.
    pub fn lookup(&self, p: &Predicate, m: &Modifiers) -> (r: Vec<MemoryRecord>)
        ensures
            exists|now: Timestamp| now.wf() && record_views(r@) == tools_lookup(*self, *p, *m, now),
    {
        let now = clock_now();
        self.lookup_at(p, m, now)
    }

    /// A recall in the registry is a lookup.
    pub fn recall(&self, p: &Predicate, m: &Modifiers) -> (r: Vec<MemoryRecord>)
        ensures
            exists|now: Timestamp| now.wf() && record_views(r@) == tools_lookup(*self, *p, *m, now),
    {
        self.lookup(p, m)
    }

    /// Removes the tools satisfying `p`; returns how many.
    pub fn forget(&mut self, p: &Predicate) -> (r: u64)
        ensures
            final(self).tools() == old(self).tools().filter(|t: ToolRecord| !tool_matches(t, *p)),
            r == old(self).tools().len() - final(self).tools().len(),
            final(self).decay() == old(self).decay(),
            final(self).scope() == old(self).scope(),
    {
        proof {
            use_type_invariant(&*self);
        }
        let ghost s = self.tools@;
        let ghost pred = |t: ToolRecord| !tool_matches(t, *p);
        let mut tools = Vec::new();
        std::mem::swap(&mut tools, &mut self.tools);
        let mut kept: Vec<ToolRecord> = Vec::new();
        let n = tools.len();
        let mut rest = crate::seqs::reversed(tools);
        let mut i: usize = 0;
        while i < n
            invariant
                n == s.len(),
                i <= n,
                rest@.len() == n - i,
                forall|k: int| 0 <= k < n - i ==> #[trigger] rest@[k] == s[n - 1 - k],
                tools_wf(s),
                pred == (|t: ToolRecord| !tool_matches(t, *p)),
                kept@ == s.take(i as int).filter(pred),
            decreases n - i,
        {
            let t = rest.pop().unwrap();
            proof {
                assert(t == s[i as int]);
                assert(tool_wf(s[i as int]));
                crate::seqs::lemma_filter_step(s, pred, i as int);
            }
            if !matches_predicate(&t, p) {
                kept.push(t);
            }
            i = i + 1;
        }
        proof {
            crate::seqs::lemma_take_all(s);
            broadcast use vstd::seq_lib::group_filter_ensures;
            assert(kept@.len() <= s.len());
            assert forall|a: int| 0 <= a < kept@.len() implies tool_wf(#[trigger] kept@[a]) by {
                crate::seqs::lemma_filter_member(s, pred, a);
            }
            assert forall|a: int, b: int| 0 <= a < b < kept@.len() implies kept@[a].tool_id@ != kept@[b].tool_id@ by {
                lemma_filter_tool_ids(s, pred, a, b);
            }
        }
        let removed = n - kept.len();
        self.tools = kept;
        removed as u64
    }

    /// Stores a tool from a payload as of instant `now` (see
    /// `payload_tool`); returns its record.  The scope, namespace and
    /// time to live are not used: tools are shared.
    pub fn store_at(
        &mut self,
        key: &str,
        data: Json,
        _scope: Scope,
        _namespace: Option<&str>,
        _ttl: Option<Ttl>,
        now: Timestamp,
    ) -> (r: MemoryRecord)
        ensures
            exists|t: ToolRecord|
                payload_tool(t, key@, data@) && r@ == tool_record(t, old(self).scope(), now)
                    && final(self).tools() == registered(old(self).tools(), t),
            final(self).decay() == old(self).decay(),
            final(self).scope() == old(self).scope(),
    {
        let tool = tool_from_payload(key, &data);
        let record = tool.to_memory_record_at(self.default_scope, now);
        let ghost t = tool;
        self.register(tool);
        record
    }

    /// Stores a tool from a payload now (see `store_at`).
    pub fn store(
        &mut self,
        key: &str,
        data: Json,
        scope: Scope,
        namespace: Option<&str>,
        ttl: Option<Ttl>,
    ) -> (r: MemoryRecord)
        ensures
            exists|t: ToolRecord, now: Timestamp|
                now.wf() && payload_tool(t, key@, data@) && r@ == tool_record(t, old(self).scope(), now)
                    && final(self).tools() == registered(old(self).tools(), t),
            final(self).decay() == old(self).decay(),
            final(self).scope() == old(self).scope(),
    {
        let now = clock_now();
        self.store_at(key, data, scope, namespace, ttl, now)
    }

    /// Updates the tools satisfying `p` with payload `data` (see
    /// `updated_tool`); returns how many.
    pub fn update(&mut self, p: &Predicate, data: &Json) -> (r: u64)
        ensures
            final(self).tools().len() == old(self).tools().len(),
            forall|i: int| 0 <= i < old(self).tools().len() ==> {
                let o = #[trigger] old(self).tools()[i];
                let n = final(self).tools()[i];
                if tool_matches(o, *p) {
                    updated_tool(o, n, data@)
                } else {
                    n == o
                }
            },
            r == old(self).tools().filter(|t: ToolRecord| tool_matches(t, *p)).len(),
            final(self).decay() == old(self).decay(),
            final(self).scope() == old(self).scope(),
    {
        proof {
            use_type_invariant(&*self);
            reveal_strlit("name");
            reveal_strlit("description");
            reveal_strlit("category");
            reveal_strlit("ranking");
            reveal_strlit("schema");
        }
        let ghost s = self.tools@;
        let ghost pred = |t: ToolRecord| tool_matches(t, *p);
        let mut tools = Vec::new();
        std::mem::swap(&mut tools, &mut self.tools);
        let mut count: u64 = 0;
        let mut i: usize = 0;
        while i < tools.len()
            invariant
                i <= tools@.len(),
                tools@.len() == s.len(),
                tools_wf(s),
                tools_wf(tools@),
                pred == (|t: ToolRecord| tool_matches(t, *p)),
                forall|k: int| 0 <= k < s.len() ==> (#[trigger] tools@[k]).tool_id == s[k].tool_id,
                forall|k: int| i <= k < s.len() ==> #[trigger] tools@[k] == s[k],
                forall|k: int| 0 <= k < i ==> {
                    let o = #[trigger] s[k];
                    let n = tools@[k];
                    if tool_matches(o, *p) {
                        updated_tool(o, n, data@)
                    } else {
                        n == o
                    }
                },
                count == s.take(i as int).filter(pred).len(),
                count <= i,
            decreases tools@.len() - i,
        {
            proof {
                crate::seqs::lemma_filter_step(s, pred, i as int);
            }
            if matches_predicate(&tools[i], p) {
                let mut t = tools[i].copy();
                match member_str(data, "name") {
                    Some(x) => {
                        t.name = owned(x);
                    },
                    None => {},
                }
                match member_str(data, "description") {
                    Some(x) => {
                        t.description = owned(x);
                    },
                    None => {},
                }
                match member_str(data, "category") {
                    Some(x) => {
                        t.category = owned(x);
                    },
                    None => {},
                }
                match member_single(data, "ranking") {
                    Some(x) => {
                        t.ranking = x;
                    },
                    None => {},
                }
                match data.get("schema") {
                    Some(v) => {
                        t.schema = v.copy();
                    },
                    None => {},
                }
                let ghost before = tools@;
                tools.set(i, t);
                proof {
                    assert forall|a: int, b: int| 0 <= a < b < tools@.len() implies tools@[a].tool_id@ != tools@[b].tool_id@ by {
                        assert(before[a].tool_id@ != before[b].tool_id@);
                    }
                    assert forall|a: int| 0 <= a < tools@.len() implies tool_wf(#[trigger] tools@[a]) by {
                        assert(tool_wf(before[a]));
                    }
                }
                count = count + 1;
            }
            i = i + 1;
        }
        proof {
            crate::seqs::lemma_take_all(s);
        }
        self.tools = tools;
        count
    }

    /// Copies of the tools satisfying `p`, in registry order: what a load
    /// ranks.
    pub fn load_candidates(&self, p: &Predicate) -> (r: Vec<ToolRecord>)
        ensures
            r@.len() == self.tools().filter(|t: ToolRecord| tool_matches(t, *p)).len(),
            forall|i: int| 0 <= i < r@.len() ==> tool_copy(#[trigger] r@[i], self.tools().filter(|t: ToolRecord| tool_matches(t, *p))[i]),
            forall|i: int| 0 <= i < r@.len() ==> tool_wf(#[trigger] r@[i]),
    {
        proof {
            use_type_invariant(self);
        }
        let ghost s = self.tools@;
        let ghost pred = |t: ToolRecord| tool_matches(t, *p);
        let mut out: Vec<ToolRecord> = Vec::new();
        let mut i: usize = 0;
        while i < self.tools.len()
            invariant
                i <= self.tools@.len(),
                s == self.tools@,
                tools_wf(s),
                pred == (|t: ToolRecord| tool_matches(t, *p)),
                out@.len() == s.take(i as int).filter(pred).len(),
                forall|k: int| 0 <= k < out@.len() ==> tool_copy(#[trigger] out@[k], s.take(i as int).filter(pred)[k]),
                forall|k: int| 0 <= k < out@.len() ==> tool_wf(#[trigger] out@[k]),
            decreases self.tools@.len() - i,
        {
            proof {
                crate::seqs::lemma_filter_step(s, pred, i as int);
                assert(tool_wf(s[i as int]));
            }
            if matches_predicate(&self.tools[i], p) {
                let c = self.tools[i].copy();
                out.push(c);
            }
            i = i + 1;
        }
        proof {
            crate::seqs::lemma_take_all(s);
        }
        out
    }

    /// Loads the tools satisfying `p` as of instant `now`, ranked by the
    /// scores the caller gives the candidates of `load_candidates` (in
    /// their order): highest score first, ties kept in registry order, at
    /// most the modifiers' limit (10 when none).
    pub fn load_scored_at(&self, p: &Predicate, m: &Modifiers, scores: &Vec<u32>, now: Timestamp) -> (r: Vec<MemoryRecord>)
        requires
            scores@.len() == self.tools().filter(|t: ToolRecord| tool_matches(t, *p)).len(),
        ensures
            record_views(r@) == ranked_records(
                self.tools().filter(|t: ToolRecord| tool_matches(t, *p)),
                scores@,
                load_limit(*m),
                self.scope(),
                now,
            ),
    {
        let cands = self.load_candidates(p);
        proof {
            let f = self.tools().filter(|t: ToolRecord| tool_matches(t, *p));
            let a = Seq::new(f.len(), |i: int| (scores@[i], tool_record(f[i], self.scope(), now)));
            let b = Seq::new(cands@.len(), |i: int| (scores@[i], tool_record(cands@[i], self.scope(), now)));
            assert forall|i: int| 0 <= i < a.len() implies a[i] == b[i] by {
                assert(tool_copy(cands@[i], f[i]));
            }
            assert(a =~= b);
        }
        rank_tools(cands, scores, load_limit_of(m), self.default_scope, now)
    }

    /// Loads the tools satisfying `p` as of instant `now`, ranked by their
    /// ranking, or, when the predicate names a task, by
    /// `weigh(ranking, relevance for the task)` (see `load_scores`).
    pub fn load_at<W: Fn(u32, u32) -> u32>(&self, p: &Predicate, m: &Modifiers, weigh: &W, now: Timestamp) -> (r: Vec<
        MemoryRecord,
    >)
        requires
            forall|a: u32, b: u32| call_requires(*weigh, (a, b)),
        ensures
            exists|scores: Seq<u32>|
                {
                    &&& #[trigger] load_scores(*weigh, matching_tools(*self, *p), task_type_of(*p), scores)
                    &&& record_views(r@) == ranked_records(
                        matching_tools(*self, *p),
                        scores,
                        load_limit(*m),
                        self.scope(),
                        now,
                    )
                },
    {
        let ghost f = matching_tools(*self, *p);
        let cands = self.load_candidates(p);
        let task = load_task_type(p);
        let mut scores: Vec<u32> = Vec::new();
        let mut i: usize = 0;
        while i < cands.len()
            invariant
                i <= cands@.len(),
                cands@.len() == f.len(),
                forall|k: int| 0 <= k < cands@.len() ==> tool_copy(#[trigger] cands@[k], f[k]),
                forall|k: int| 0 <= k < cands@.len() ==> tool_wf(#[trigger] cands@[k]),
                forall|a: u32, b: u32| call_requires(*weigh, (a, b)),
                match task_type_of(*p) {
                    Some(s) => task matches Some(x) && x@ == s,
                    None => task is None,
                },
                scores@.len() == i,
                forall|k: int| 0 <= k < i ==> score_ok(*weigh, f[k], task_type_of(*p), #[trigger] scores@[k]),
            decreases cands@.len() - i,
        {
            let sc = match &task {
                Some(tt) => {
                    let rel = cands[i].relevance_for(tt.as_str());
                    weigh(cands[i].ranking, rel)
                },
                None => cands[i].ranking,
            };
            proof {
                assert(tool_copy(cands@[i as int], f[i as int]));
            }
            scores.push(sc);
            i = i + 1;
        }
        proof {
            assert(load_scores(*weigh, matching_tools(*self, *p), task_type_of(*p), scores@));
        }
        let r = self.load_scored_at(p, m, &scores, now);
        assert(record_views(r@) == ranked_records(matching_tools(*self, *p), scores@, load_limit(*m), self.scope(), now));
        r
    }

    /// Loads tools now (see `load_at`).
    pub fn load<W: Fn(u32, u32) -> u32>(&self, p: &Predicate, m: &Modifiers, weigh: &W) -> (r: Vec<MemoryRecord>)
        requires
            forall|a: u32, b: u32| call_requires(*weigh, (a, b)),
        ensures
            exists|scores: Seq<u32>, now: Timestamp|
                {
                    &&& #[trigger] now.wf()
                    &&& #[trigger] load_scores(*weigh, matching_tools(*self, *p), task_type_of(*p), scores)
                    &&& record_views(r@) == ranked_records(
                        matching_tools(*self, *p),
                        scores,
                        load_limit(*m),
                        self.scope(),
                        now,
                    )
                },
    {
        let now = clock_now();
        self.load_at(p, m, weigh, now)
    }

    /// The number of tools.
    pub fn count(&self) -> (r: usize)
        ensures
            r == self.tools().len(),
    {
        self.tools.len()
    }

    /// Removes every tool.
    pub fn clear(&mut self)
        ensures
            final(self).tools().len() == 0,
            final(self).decay() == old(self).decay(),
            final(self).scope() == old(self).scope(),
    {
        self.tools = Vec::new();
    }

    /// The memory kind this backend holds.
    pub fn memory_type(&self) -> (r: MemoryType)
        ensures
            r == MemoryType::Tools,
    {
        MemoryType::Tools
    }

    /// What this backend offers.
    pub fn info(&self) -> (r: BackendInfo)
        ensures
            r == backend_info_of(MemoryType::Tools),
    {
        BackendInfo::tools()
    }
}

/// The records a lookup in the registry returns at instant `now`: the
/// tools satisfying the predicate, in registry order, filtered by scope and
/// namespace, limited.
pub open spec fn tools_lookup(b: ToolsBackend, p: Predicate, m: Modifiers, now: Timestamp) -> Seq<RecordView> {
    limited(
        in_namespace(
            in_scope(
                b.tools().filter(|t: ToolRecord| tool_matches(t, p)).map_values(|t: ToolRecord| tool_record(t, b.scope(), now)),
                m.scope,
            ),
            namespace_of(m),
        ),
        m.limit,
    )
}

impl Default for ToolsBackend {
    fn default() -> (r: ToolsBackend)
        ensures
            r.tools().len() == 0,
            r.decay() == F32_DECAY,
            r.scope() == Scope::Shared,
    {
        ToolsBackend::new()
    }
}

/// Two positions of a filtered list of tools with unique ids hold
/// different ids.
proof fn lemma_filter_tool_ids(s: Seq<ToolRecord>, p: spec_fn(ToolRecord) -> bool, a: int, b: int)
    requires
        forall|i: int, j: int| 0 <= i < j < s.len() ==> s[i].tool_id@ != s[j].tool_id@,
        0 <= a < b < s.filter(p).len(),
    ensures
        s.filter(p)[a].tool_id@ != s.filter(p)[b].tool_id@,
    decreases s.len(),
{
    if s.len() > 0 {
        let init = s.drop_last();
        let g = init.filter(p);
        assert forall|i: int, j: int| 0 <= i < j < init.len() implies init[i].tool_id@ != init[j].tool_id@ by {
            assert(init[i] == s[i] && init[j] == s[j]);
        }
        assert(s =~= init.push(s.last()));
        init.lemma_filter_push(s.last(), p);
        if p(s.last()) {
            if b < g.len() {
                lemma_filter_tool_ids(init, p, a, b);
            } else {
                crate::seqs::lemma_filter_member(init, p, a);
                let w = choose|w: int| 0 <= w < init.len() && init[w] == g[a];
                assert(s[w] == init[w]);
                assert(s[w].tool_id@ != s[s.len() - 1].tool_id@);
            }
        } else {
            lemma_filter_tool_ids(init, p, a, b);
        }
    }
}

} // verus!

//! Procedural memory: procedures as nodes of a directed graph, matched by
//! key, by payload conditions, or by token overlap with a pattern.
use vstd::prelude::*;
use crate::backend::{backend_info_of, BackendInfo};
use crate::float::{
    f32_bits_ge, f32_bits_of_ratio, f32_bits_unit_clamp, f32_ge, f32_is_nan, f32_lt, f32_of_ratio, f32_round_nat,
    f32_round_u128,
    f32_unit_clamp, f64_bits_of_f32, f64_of_f32,
};
use crate::json::{
    items_view, json_as_f64, json_as_i64, json_as_u64, json_from_f64, json_get, json_of_f64, lemma_array_view,
    lemma_object_view, members_view, object_of, push_item, push_member, string_of, Json, JsonView, Number,
};
use crate::memory::{MemoryRecord, MemoryType, Metadata, MetadataView, RecordView};
use crate::order::{first_records, record_views, score_gt, scored_views, sort_scored, sort_stable, unscored};
use crate::predicate::{all_conditions_hold, conditions_hold, Modifiers, Predicate, Value};
use crate::records::{in_namespace, in_scope, limited, namespace_of, scoped_records, truncate_records};
use crate::scope::Scope;
use crate::seqs::{lemma_filter_member, lemma_filter_step, lemma_take_all};
use crate::similarity::{jaccard, jaccard_similarity};
use crate::split::{
    lines, lines_of, split_char, split_on, split_once, split_once_char, string_views, strip_leading, strip_leading_char,
};
use crate::text::{copy_string, owned, str_eq, trim_str, trimmed_of};
use crate::tools::{member_single, member_str, payload_single, str_member};
use crate::time::{clock_now, Timestamp, Ttl};

verus! {

broadcast use vstd::string::group_string_axioms;

/// Bit pattern of the single 0.5: the confidence of a new procedure and the
/// success rate of one never applied.
pub const F32_HALF: u32 = 0x3F00_0000;

/// Bit pattern of the single 0.7, the default pattern threshold.
pub const F32_THRESHOLD: u32 = 0x3F33_3333;

/// The tunable variables of a procedure (doubles as bit patterns).
pub open spec fn var_view(v: Seq<(String, u64)>) -> Seq<(Seq<char>, u64)> {
    v.map_values(|e: (String, u64)| (e.0@, e.1))
}

/// Position of the variable named `k`.
pub open spec fn var_index(v: Seq<(Seq<char>, u64)>, k: Seq<char>) -> Option<int> {
    if exists|i: int| 0 <= i < v.len() && v[i].0 == k {
        Some(choose|i: int| 0 <= i < v.len() && v[i].0 == k)
    } else {
        None
    }
}

/// The variables with `k` set to `x` (`HashMap::insert`).
pub open spec fn var_set(v: Seq<(Seq<char>, u64)>, k: Seq<char>, x: u64) -> Seq<(Seq<char>, u64)> {
    match var_index(v, k) {
        Some(i) => v.update(i, (k, x)),
        None => v.push((k, x)),
    }
}

/// Variable names are unique.
pub open spec fn vars_unique(v: Seq<(Seq<char>, u64)>) -> bool {
    forall|i: int, j: int| 0 <= i < j < v.len() ==> v[i].0 != v[j].0
}

/// A procedure: the pattern that triggers it, its steps and what was
/// learned from applying it.
#[derive(Debug)]
pub struct ProcedureNode {
    pub pattern_id: String,
    pub pattern: String,
    pub steps: Vec<String>,
    pub severity: String,
    /// Confidence in [0, 1] (a single's bit pattern).
    pub confidence: u32,
    pub source: String,
    pub success_count: u64,
    pub failure_count: u64,
    /// Tunable variables (doubles as bit patterns), names unique.
    pub variables: Vec<(String, u64)>,
    pub metadata: Json,
    pub version: u64,
}

/// The views of steps.
pub open spec fn step_views(v: Seq<String>) -> Seq<Seq<char>> {
    v.map_values(|s: String| s@)
}

/// A procedure is well formed when its variable names are unique.
pub open spec fn node_wf(n: ProcedureNode) -> bool {
    vars_unique(var_view(n.variables@))
}

/// The JSON form of the variables.
pub open spec fn vars_json(v: Seq<(Seq<char>, u64)>) -> Seq<(Seq<char>, JsonView)> {
    v.map_values(|e: (Seq<char>, u64)| (e.0, json_of_f64(e.1)))
}

/// The JSON form of steps.
pub open spec fn steps_json(v: Seq<Seq<char>>) -> Seq<JsonView> {
    v.map_values(|s: Seq<char>| JsonView::String(s))
}

/// The JSON form of a procedure: its fields in key order, the confidence
/// widened to a double.
pub open spec fn proc_json(n: ProcedureNode) -> JsonView {
    JsonView::Object(
        seq![
            ("confidence"@, json_of_f64(f64_of_f32(n.confidence) as u64)),
            ("failure_count"@, JsonView::Number(Number::PosInt(n.failure_count))),
            ("metadata"@, n.metadata@),
            ("pattern"@, JsonView::String(n.pattern@)),
            ("pattern_id"@, JsonView::String(n.pattern_id@)),
            ("severity"@, JsonView::String(n.severity@)),
            ("source"@, JsonView::String(n.source@)),
            ("steps"@, JsonView::Array(steps_json(step_views(n.steps@)))),
            ("success_count"@, JsonView::Number(Number::PosInt(n.success_count))),
            ("variables"@, JsonView::Object(vars_json(var_view(n.variables@)))),
            ("version"@, JsonView::Number(Number::PosInt(n.version))),
        ],
    )
}

/// The record a procedure is returned as at instant `now`: versioned as
/// the procedure.
pub open spec fn proc_record(n: ProcedureNode, scope: Scope, now: Timestamp) -> RecordView {
    RecordView {
        id: n.pattern_id@,
        memory_type: MemoryType::Procedural,
        data: proc_json(n),
        meta: MetadataView { created_at: now, accessed_at: now, scope, namespace: None, ttl: None, version: n.version },
    }
}

/// `successes as f32 / total as f32` for a positive total.
pub open spec fn success_ratio(successes: u64, total: nat) -> u32 {
    f32_of_ratio(f32_round_nat(successes as nat), f32_round_nat(total))
}

/// Whether `c` is a copy of procedure `n`.
pub open spec fn node_copy(c: ProcedureNode, n: ProcedureNode) -> bool {
    &&& c.pattern_id == n.pattern_id
    &&& c.pattern == n.pattern
    &&& step_views(c.steps@) == step_views(n.steps@)
    &&& c.severity == n.severity
    &&& c.confidence == n.confidence
    &&& c.source == n.source
    &&& c.success_count == n.success_count
    &&& c.failure_count == n.failure_count
    &&& var_view(c.variables@) == var_view(n.variables@)
    &&& c.metadata@ == n.metadata@
    &&& c.version == n.version
}

/// Copies of strings.
fn copy_strings(v: &Vec<String>) -> (r: Vec<String>)
    ensures
        step_views(r@) == step_views(v@),
{
    let mut r: Vec<String> = Vec::new();
    let mut i: usize = 0;
    while i < v.len()
        invariant
            i <= v@.len(),
            step_views(r@) == step_views(v@).take(i as int),
        decreases v@.len() - i,
    {
        let ghost before = r@;
        let x = v[i].clone();
        r.push(x);
        assert(r@ == before.push(x));
        assert(step_views(r@) =~= step_views(before).push(x@));
        assert(step_views(v@).take(i + 1) =~= step_views(v@).take(i as int).push(v@[i as int]@));
        assert(step_views(r@) =~= step_views(v@).take(i + 1));
        i = i + 1;
    }
    assert(step_views(v@).take(v@.len() as int) =~= step_views(v@));
    r
}

/// Copies of variables.
fn copy_vars(v: &Vec<(String, u64)>) -> (r: Vec<(String, u64)>)
    ensures
        var_view(r@) == var_view(v@),
{
    let mut r: Vec<(String, u64)> = Vec::new();
    let mut i: usize = 0;
    while i < v.len()
        invariant
            i <= v@.len(),
            var_view(r@) == var_view(v@).take(i as int),
        decreases v@.len() - i,
    {
        let k = v[i].0.clone();
        let ghost before = r@;
        r.push((k, v[i].1));
        assert(r@ == before.push((k, v@[i as int].1)));
        assert(var_view(r@) =~= var_view(before).push((k@, v@[i as int].1)));
        assert(var_view(v@).take(i + 1) =~= var_view(v@).take(i as int).push((v@[i as int].0@, v@[i as int].1)));
        assert(var_view(r@) =~= var_view(v@).take(i + 1));
        i = i + 1;
    }
    assert(var_view(v@).take(v@.len() as int) =~= var_view(v@));
    r
}

impl ProcedureNode {
    /// A procedure with severity "info", confidence 0.5, source "manual",
    /// no applications, no variables, null metadata, version 1.
    pub fn new(pattern_id: &str, pattern: &str, steps: Vec<String>) -> (r: ProcedureNode)
        ensures
            r.pattern_id@ == pattern_id@,
            r.pattern@ == pattern@,
            r.steps == steps,
            r.severity@ == "info"@,
            r.confidence == F32_HALF,
            r.source@ == "manual"@,
            r.success_count == 0,
            r.failure_count == 0,
            r.variables@.len() == 0,
            r.metadata@ == JsonView::Null,
            r.version == 1,
            node_wf(r),
    {
        let r = ProcedureNode {
            pattern_id: owned(pattern_id),
            pattern: owned(pattern),
            steps,
            severity: owned("info"),
            confidence: F32_HALF,
            source: owned("manual"),
            success_count: 0,
            failure_count: 0,
            variables: Vec::new(),
            metadata: Json::Null,
            version: 1,
        };
        assert(var_view(r.variables@) =~= Seq::<(Seq<char>, u64)>::empty());
        r
    }

    /// The JSON form of the procedure (see `proc_json`).
    pub fn to_json(&self) -> (r: Json)
        ensures
            r@ == proc_json(*self),
    {
        let mut m: Vec<(String, Json)> = Vec::new();
        assert(members_view(m@) =~= Seq::empty());
        push_member(&mut m, "confidence", json_from_f64(f64_bits_of_f32(self.confidence)));
        push_member(&mut m, "failure_count", Json::Number(Number::PosInt(self.failure_count)));
        push_member(&mut m, "metadata", self.metadata.copy());
        push_member(&mut m, "pattern", string_of(self.pattern.as_str()));
        push_member(&mut m, "pattern_id", string_of(self.pattern_id.as_str()));
        push_member(&mut m, "severity", string_of(self.severity.as_str()));
        push_member(&mut m, "source", string_of(self.source.as_str()));
        let mut steps: Vec<Json> = Vec::new();
        let mut i: usize = 0;
        while i < self.steps.len()
            invariant
                i <= self.steps@.len(),
                items_view(steps@) == steps_json(step_views(self.steps@)).take(i as int),
            decreases self.steps@.len() - i,
        {
            push_item(&mut steps, string_of(self.steps[i].as_str()));
            assert(items_view(steps@) =~= steps_json(step_views(self.steps@)).take(i + 1));
            i = i + 1;
        }
        assert(steps_json(step_views(self.steps@)).take(self.steps@.len() as int) =~= steps_json(
            step_views(self.steps@),
        ));
        push_member(&mut m, "steps", crate::json::array_of(steps));
        push_member(&mut m, "success_count", Json::Number(Number::PosInt(self.success_count)));
        let mut vars: Vec<(String, Json)> = Vec::new();
        let mut j: usize = 0;
        assert(members_view(vars@) =~= Seq::empty());
        while j < self.variables.len()
            invariant
                j <= self.variables@.len(),
                members_view(vars@) == vars_json(var_view(self.variables@)).take(j as int),
            decreases self.variables@.len() - j,
        {
            push_member(&mut vars, self.variables[j].0.as_str(), json_from_f64(self.variables[j].1));
            assert(members_view(vars@) =~= vars_json(var_view(self.variables@)).take(j + 1));
            j = j + 1;
        }
        assert(vars_json(var_view(self.variables@)).take(self.variables@.len() as int) =~= vars_json(
            var_view(self.variables@),
        ));
        push_member(&mut m, "variables", object_of(vars));
        push_member(&mut m, "version", Json::Number(Number::PosInt(self.version)));
        proof {
            reveal_strlit("confidence");
            reveal_strlit("failure_count");
            reveal_strlit("metadata");
            reveal_strlit("pattern");
            reveal_strlit("pattern_id");
            reveal_strlit("severity");
            reveal_strlit("source");
            reveal_strlit("steps");
            reveal_strlit("success_count");
            reveal_strlit("variables");
            reveal_strlit("version");
        }
        assert(members_view(m@) =~= proc_json(*self)->Object_0);
        object_of(m)
    }

    /// The record the procedure is returned as at instant `now`.
    pub fn to_memory_record_at(&self, scope: Scope, now: Timestamp) -> (r: MemoryRecord)
        ensures
            r@ == proc_record(*self, scope, now),
    {
        let mut metadata = Metadata::new_at(scope, now);
        metadata.version = self.version;
        MemoryRecord {
            id: copy_string(&self.pattern_id),
            memory_type: MemoryType::Procedural,
            data: self.to_json(),
            metadata,
        }
    }

    /// The record the procedure is returned as now.
    pub fn to_memory_record(&self, scope: Scope) -> (r: MemoryRecord)
        ensures
            exists|now: Timestamp| now.wf() && r@ == proc_record(*self, scope, now),
    {
        let now = clock_now();
        self.to_memory_record_at(scope, now)
    }

    /// The confidence after an application: the success ratio when there
    /// has been one, else unchanged.
    fn update_confidence(&mut self)
        requires
            old(self).success_count + old(self).failure_count <= u64::MAX,
        ensures
            final(self).confidence == if old(self).success_count + old(self).failure_count > 0 {
                success_ratio(old(self).success_count, (old(self).success_count + old(self).failure_count) as nat)
            } else {
                old(self).confidence
            },
            final(self).success_count == old(self).success_count,
            final(self).failure_count == old(self).failure_count,
            final(self).pattern_id == old(self).pattern_id,
            final(self).variables == old(self).variables,
            final(self).version == old(self).version,
    {
        let total = self.success_count + self.failure_count;
        if total > 0 {
            let a = f32_round_u128(self.success_count as u128);
            let b = f32_round_u128(total as u128);
            self.confidence = f32_bits_of_ratio(a, b);
        }
    }

    /// Records a successful application; the confidence becomes the
    /// success ratio.
    pub fn record_success(&mut self)
        requires
            old(self).success_count + old(self).failure_count < u64::MAX,
        ensures
            final(self).success_count == old(self).success_count + 1,
            final(self).failure_count == old(self).failure_count,
            final(self).confidence == success_ratio(
                final(self).success_count,
                (final(self).success_count + final(self).failure_count) as nat,
            ),
            final(self).pattern_id == old(self).pattern_id,
            final(self).variables == old(self).variables,
            final(self).version == old(self).version,
    {
        self.success_count = self.success_count + 1;
        self.update_confidence();
    }

    /// Records a failed application; the confidence becomes the success
    /// ratio.
    pub fn record_failure(&mut self)
        requires
            old(self).success_count + old(self).failure_count < u64::MAX,
        ensures
            final(self).failure_count == old(self).failure_count + 1,
            final(self).success_count == old(self).success_count,
            final(self).confidence == success_ratio(
                final(self).success_count,
                (final(self).success_count + final(self).failure_count) as nat,
            ),
            final(self).pattern_id == old(self).pattern_id,
            final(self).variables == old(self).variables,
            final(self).version == old(self).version,
    {
        self.failure_count = self.failure_count + 1;
        self.update_confidence();
    }

    /// The success ratio, or 0.5 when the procedure was never applied.
    pub fn success_rate(&self) -> (r: u32)
        requires
            self.success_count + self.failure_count <= u64::MAX,
        ensures
            r == if self.success_count + self.failure_count > 0 {
                success_ratio(self.success_count, (self.success_count + self.failure_count) as nat)
            } else {
                F32_HALF
            },
    {
        let total = self.success_count + self.failure_count;
        if total > 0 {
            let a = f32_round_u128(self.success_count as u128);
            let b = f32_round_u128(total as u128);
            f32_bits_of_ratio(a, b)
        } else {
            F32_HALF
        }
    }

    /// A copy of the procedure.
    pub fn copy(&self) -> (r: ProcedureNode)
        ensures
            node_copy(r, *self),
            node_wf(*self) ==> node_wf(r),
            proc_json(r) == proc_json(*self),
    {
        ProcedureNode {
            pattern_id: self.pattern_id.clone(),
            pattern: self.pattern.clone(),
            steps: copy_strings(&self.steps),
            severity: self.severity.clone(),
            confidence: self.confidence,
            source: self.source.clone(),
            success_count: self.success_count,
            failure_count: self.failure_count,
            variables: copy_vars(&self.variables),
            metadata: self.metadata.copy(),
            version: self.version,
        }
    }
}

/// A relationship between two procedures.
#[derive(Debug)]
pub struct ProcedureEdge {
    pub relationship: String,
    /// Strength in [0, 1] (a single's bit pattern).
    pub weight: u32,
}

impl ProcedureEdge {
    /// An edge with the weight clamped to [0, 1].
    pub fn new(relationship: &str, weight: u32) -> (r: ProcedureEdge)
        ensures
            r.relationship@ == relationship@,
            r.weight == f32_unit_clamp(weight),
    {
        ProcedureEdge { relationship: owned(relationship), weight: f32_bits_unit_clamp(weight) }
    }
}


// ---------------------------------------------------------------------------
// The graph of procedures
// ---------------------------------------------------------------------------

/// The value of an edge: source and target positions, relationship and
/// weight.
pub open spec fn edge_view(e: (usize, usize, ProcedureEdge)) -> (int, int, Seq<char>, u32) {
    (e.0 as int, e.1 as int, e.2.relationship@, e.2.weight)
}

/// The values of edges, in the order they were added.
pub open spec fn edge_views(v: Seq<(usize, usize, ProcedureEdge)>) -> Seq<(int, int, Seq<char>, u32)> {
    v.map_values(|e: (usize, usize, ProcedureEdge)| edge_view(e))
}

/// Whether a procedure satisfies a predicate: `ALL` and `PATTERN` every
/// procedure; `KEY` on `pattern_id`/`id`, `severity` or `source` with a
/// string equal to that field; `WHERE` when the procedure's JSON form
/// satisfies every condition; `LIKE` none.
pub open spec fn proc_matches(n: ProcedureNode, p: Predicate) -> bool {
    match p {
        Predicate::All => true,
        Predicate::Pattern { .. } => true,
        Predicate::Like { .. } => false,
        Predicate::Key { field, value } => match value {
            Value::String(s) => if field@ == "pattern_id"@ || field@ == "id"@ {
                s@ == n.pattern_id@
            } else if field@ == "severity"@ {
                s@ == n.severity@
            } else if field@ == "source"@ {
                s@ == n.source@
            } else {
                false
            },
            _ => false,
        },
        Predicate::Where { conditions } => conditions_hold(conditions@, proc_json(n)),
    }
}

/// Whether a procedure satisfies a predicate (see `proc_matches`).
fn matches_predicate(n: &ProcedureNode, p: &Predicate) -> (r: bool)
    ensures
        r == proc_matches(*n, *p),
{
    proof {
        reveal_strlit("pattern_id");
        reveal_strlit("id");
        reveal_strlit("severity");
        reveal_strlit("source");
    }
    match p {
        Predicate::All => true,
        Predicate::Pattern { .. } => true,
        Predicate::Like { .. } => false,
        Predicate::Key { field, value } => match value {
            Value::String(s) => {
                if str_eq(field.as_str(), "pattern_id") || str_eq(field.as_str(), "id") {
                    str_eq(s.as_str(), n.pattern_id.as_str())
                } else if str_eq(field.as_str(), "severity") {
                    str_eq(s.as_str(), n.severity.as_str())
                } else if str_eq(field.as_str(), "source") {
                    str_eq(s.as_str(), n.source.as_str())
                } else {
                    false
                }
            },
            _ => false,
        },
        Predicate::Where { conditions } => {
            let j = n.to_json();
            all_conditions_hold(conditions, &j)
        },
    }
}

/// The graph is well formed: one flag per procedure, procedures well
/// formed, at most one indexed procedure per id, edges between procedures.
pub open spec fn graph_wf(
    nodes: Seq<ProcedureNode>,
    indexed: Seq<bool>,
    edges: Seq<(int, int, Seq<char>, u32)>,
) -> bool {
    &&& nodes.len() == indexed.len()
    &&& forall|i: int| 0 <= i < nodes.len() ==> node_wf(#[trigger] nodes[i])
    &&& forall|i: int, j: int|
        0 <= i < j < nodes.len() && indexed[i] && indexed[j] ==> nodes[i].pattern_id@ != nodes[j].pattern_id@
    &&& forall|k: int| 0 <= k < edges.len() ==> 0 <= (#[trigger] edges[k]).0 < nodes.len() && 0 <= edges[k].1 < nodes.len()
}

/// Position of the indexed procedure with id `id`.
pub open spec fn indexed_at(nodes: Seq<ProcedureNode>, indexed: Seq<bool>, id: Seq<char>) -> Option<int> {
    if exists|i: int| 0 <= i < nodes.len() && indexed[i] && nodes[i].pattern_id@ == id {
        Some(choose|i: int| 0 <= i < nodes.len() && indexed[i] && nodes[i].pattern_id@ == id)
    } else {
        None
    }
}

/// The flags after a procedure with id `id` is added: earlier procedures
/// with that id are no longer indexed.
pub open spec fn unindexed(nodes: Seq<ProcedureNode>, indexed: Seq<bool>, id: Seq<char>) -> Seq<bool> {
    Seq::new(indexed.len(), |i: int| indexed[i] && nodes[i].pattern_id@ != id)
}

/// The edges from position `i` with a relationship, most recent first, as
/// the positions of their targets.
pub open spec fn targets(edges: Seq<(int, int, Seq<char>, u32)>, i: int, rel: Seq<char>) -> Seq<int> {
    edges.reverse().filter(edge_from(i, rel)).map_values(edge_end(true))
}

/// Edges from position `i` with a relationship.
pub open spec fn edge_from(i: int, rel: Seq<char>) -> spec_fn((int, int, Seq<char>, u32)) -> bool {
    |e: (int, int, Seq<char>, u32)| e.0 == i && e.2 == rel
}

/// Edges into position `i` with a relationship.
pub open spec fn edge_into(i: int, rel: Seq<char>) -> spec_fn((int, int, Seq<char>, u32)) -> bool {
    |e: (int, int, Seq<char>, u32)| e.1 == i && e.2 == rel
}

/// The target (or else the source) position of an edge.
pub open spec fn edge_end(target: bool) -> spec_fn((int, int, Seq<char>, u32)) -> int {
    |e: (int, int, Seq<char>, u32)| if target { e.1 } else { e.0 }
}

/// Positions as integers.
pub open spec fn positions(v: Seq<usize>) -> Seq<int> {
    v.map_values(|x: usize| x as int)
}

/// The edges into position `i` with a relationship, most recent first, as
/// the positions of their sources.
pub open spec fn sources(edges: Seq<(int, int, Seq<char>, u32)>, i: int, rel: Seq<char>) -> Seq<int> {
    edges.reverse().filter(edge_into(i, rel)).map_values(edge_end(false))
}

/// The procedures matching a pattern query at a threshold, each with its
/// similarity, in graph order.
pub open spec fn pattern_hits(
    nodes: Seq<ProcedureNode>,
    query: Seq<char>,
    threshold: u32,
    scope: Scope,
    now: Timestamp,
) -> Seq<(u32, RecordView)> {
    nodes.filter(|n: ProcedureNode| f32_ge(jaccard(query, n.pattern@), threshold)).map_values(
        |n: ProcedureNode| (jaccard(query, n.pattern@), proc_record(n, scope, now)),
    )
}

/// The id an exact key lookup asks for: `KEY pattern_id` or `KEY id` with
/// a string.
pub open spec fn key_id(p: Predicate) -> Option<Seq<char>> {
    match p {
        Predicate::Key { field, value } => match value {
            Value::String(s) => if field@ == "pattern_id"@ || field@ == "id"@ { Some(s@) } else { None },
            _ => None,
        },
        _ => None,
    }
}

/// The number of `true` flags.
pub open spec fn count_true(ks: Seq<bool>) -> nat
    decreases ks.len(),
{
    if ks.len() == 0 {
        0
    } else {
        count_true(ks.drop_last()) + if ks.last() { 1nat } else { 0nat }
    }
}

/// The elements of `s` whose flag is set, in order.
pub open spec fn select<A>(s: Seq<A>, ks: Seq<bool>) -> Seq<A>
    decreases s.len(),
{
    if s.len() == 0 || ks.len() != s.len() {
        Seq::empty()
    } else {
        let p = select(s.drop_last(), ks.drop_last());
        if ks.last() { p.push(s.last()) } else { p }
    }
}

/// The edges between kept procedures, renumbered to the kept positions.
pub open spec fn kept_edges(edges: Seq<(int, int, Seq<char>, u32)>, ks: Seq<bool>) -> Seq<(int, int, Seq<char>, u32)> {
    edges.filter(edge_kept(ks)).map_values(edge_renumbered(ks))
}

/// Whether both ends of an edge are kept.
pub open spec fn edge_kept(ks: Seq<bool>) -> spec_fn((int, int, Seq<char>, u32)) -> bool {
    |e: (int, int, Seq<char>, u32)| 0 <= e.0 < ks.len() && 0 <= e.1 < ks.len() && ks[e.0] && ks[e.1]
}

/// An edge with its ends at their new positions.
pub open spec fn edge_renumbered(ks: Seq<bool>) -> spec_fn((int, int, Seq<char>, u32)) -> (int, int, Seq<char>, u32) {
    |e: (int, int, Seq<char>, u32)| (count_true(ks.take(e.0)) as int, count_true(ks.take(e.1)) as int, e.2, e.3)
}

/// Which procedures a removal by predicate keeps: those the index does
/// not reach, and those not satisfying it.
pub open spec fn kept_flags(nodes: Seq<ProcedureNode>, indexed: Seq<bool>, p: Predicate) -> Seq<bool> {
    Seq::new(nodes.len(), |i: int| !(indexed[i] && proc_matches(nodes[i], p)))
}

/// Flags set for the indexed procedures that satisfy `p`: those an update
/// with `p` changes.
pub open spec fn matched_flags(nodes: Seq<ProcedureNode>, indexed: Seq<bool>, p: Predicate) -> Seq<bool> {
    Seq::new(nodes.len(), |i: int| indexed[i] && proc_matches(nodes[i], p))
}

/// Flags and their negations together count every position.
proof fn lemma_count_true_complement(a: Seq<bool>, b: Seq<bool>)
    requires
        a.len() == b.len(),
        forall|i: int| 0 <= i < a.len() ==> a[i] == !b[i],
    ensures
        count_true(a) + count_true(b) == a.len(),
    decreases a.len(),
{
    if a.len() > 0 {
        lemma_count_true_complement(a.drop_last(), b.drop_last());
    }
}

/// The count an update returns (the procedures less those it keeps
/// unchanged) is the number of indexed procedures that satisfy its
/// predicate.
pub proof fn lemma_update_count_is_matches(nodes: Seq<ProcedureNode>, indexed: Seq<bool>, p: Predicate)
    ensures
        nodes.len() - count_true(kept_flags(nodes, indexed, p)) == count_true(matched_flags(nodes, indexed, p)),
{
    lemma_count_true_complement(matched_flags(nodes, indexed, p), kept_flags(nodes, indexed, p));
}

/// Procedural memory: a directed graph of procedures.
pub struct ProceduralBackend {
    nodes: Vec<ProcedureNode>,
    indexed: Vec<bool>,
    edges: Vec<(usize, usize, ProcedureEdge)>,
    default_threshold: u32,
    default_scope: Scope,
}

impl ProceduralBackend {
    #[verifier::type_invariant]
    spec fn inv(self) -> bool {
        graph_wf(self.nodes@, self.indexed@, edge_views(self.edges@))
    }

    /// The procedures, in the order they were added.
    pub closed spec fn nodes(self) -> Seq<ProcedureNode> {
        self.nodes@
    }

    /// Which procedures the id index reaches (the latest with each id).
    pub closed spec fn indexed(self) -> Seq<bool> {
        self.indexed@
    }

    /// The edges, in the order they were added.
    pub closed spec fn edges(self) -> Seq<(int, int, Seq<char>, u32)> {
        edge_views(self.edges@)
    }

    /// The default pattern threshold (a single's bit pattern).
    pub closed spec fn threshold(self) -> u32 {
        self.default_threshold
    }

    /// The scope procedures are returned with.
    pub closed spec fn scope(self) -> Scope {
        self.default_scope
    }

    /// An empty graph: threshold 0.7, procedures shared.
    pub fn new() -> (r: ProceduralBackend)
        ensures
            r.nodes().len() == 0,
            r.edges().len() == 0,
            r.threshold() == F32_THRESHOLD,
            r.scope() == Scope::Shared,
    {
        let r = ProceduralBackend {
            nodes: Vec::new(),
            indexed: Vec::new(),
            edges: Vec::new(),
            default_threshold: F32_THRESHOLD,
            default_scope: Scope::Shared,
        };
        assert(edge_views(r.edges@) =~= Seq::<(int, int, Seq<char>, u32)>::empty());
        r
    }

    /// An empty graph with a threshold, clamped to [0, 1].
    pub fn with_threshold(threshold: u32) -> (r: ProceduralBackend)
        ensures
            r.nodes().len() == 0,
            r.edges().len() == 0,
            r.threshold() == f32_unit_clamp(threshold),
            r.scope() == Scope::Shared,
    {
        let r = ProceduralBackend {
            nodes: Vec::new(),
            indexed: Vec::new(),
            edges: Vec::new(),
            default_threshold: f32_bits_unit_clamp(threshold),
            default_scope: Scope::Shared,
        };
        assert(edge_views(r.edges@) =~= Seq::<(int, int, Seq<char>, u32)>::empty());
        r
    }

    /// Position of the indexed procedure with an id.
    fn find(&self, id: &str) -> (r: Option<usize>)
        ensures
            match r {
                Some(i) => i < self.nodes().len() && self.indexed()[i as int] && self.nodes()[i as int].pattern_id@ == id@
                    && indexed_at(self.nodes(), self.indexed(), id@) == Some(i as int),
                None => indexed_at(self.nodes(), self.indexed(), id@) is None,
            },
    {
        proof {
            use_type_invariant(self);
        }
        let mut i: usize = 0;
        while i < self.nodes.len()
            invariant
                i <= self.nodes@.len(),
                self.nodes@.len() == self.indexed@.len(),
                graph_wf(self.nodes@, self.indexed@, edge_views(self.edges@)),
                forall|k: int| 0 <= k < i ==> !(self.indexed@[k] && self.nodes@[k].pattern_id@ == id@),
            decreases self.nodes@.len() - i,
        {
            if self.indexed[i] && str_eq(self.nodes[i].pattern_id.as_str(), id) {
                proof {
                    let ns = self.nodes@;
                    let ix = self.indexed@;
                    let c = choose|c: int| 0 <= c < ns.len() && ix[c] && ns[c].pattern_id@ == id@;
                    assert(0 <= i < ns.len() && ix[i as int] && ns[i as int].pattern_id@ == id@);
                    if c != i as int {
                        if c < i as int {
                            assert(ns[c].pattern_id@ != ns[i as int].pattern_id@);
                        } else {
                            assert(ns[i as int].pattern_id@ != ns[c].pattern_id@);
                        }
                    }
                }
                return Some(i);
            }
            i = i + 1;
        }
        None
    }

    /// Adds a procedure; it becomes the one its id reaches.  Returns its
    /// position.
    pub fn add_procedure(&mut self, procedure: ProcedureNode) -> (r: usize)
        requires
            node_wf(procedure),
        ensures
            r == old(self).nodes().len(),
            final(self).nodes() == old(self).nodes().push(procedure),
            final(self).indexed() == unindexed(old(self).nodes(), old(self).indexed(), procedure.pattern_id@).push(
                true,
            ),
            final(self).edges() == old(self).edges(),
            final(self).threshold() == old(self).threshold(),
            final(self).scope() == old(self).scope(),
    {
        proof {
            use_type_invariant(&*self);
        }
        let mut g = ProceduralBackend::new();
        std::mem::swap(&mut g, self);
        let ProceduralBackend { nodes, indexed, edges, default_threshold, default_scope } = g;
        let ghost ns = nodes@;
        let ghost ix = indexed@;
        let ghost id = procedure.pattern_id@;
        let mut flags: Vec<bool> = Vec::new();
        let mut i: usize = 0;
        while i < indexed.len()
            invariant
                ns == nodes@,
                ix == indexed@,
                ns.len() == ix.len(),
                flags@.len() == i,
                i <= ix.len(),
                id == procedure.pattern_id@,
                forall|k: int| 0 <= k < i ==> flags@[k] == (ix[k] && ns[k].pattern_id@ != id),
            decreases ix.len() - i,
        {
            let keep = indexed[i] && !str_eq(nodes[i].pattern_id.as_str(), procedure.pattern_id.as_str());
            flags.push(keep);
            i = i + 1;
        }
        flags.push(true);
        let r = nodes.len();
        let mut nodes = nodes;
        nodes.push(procedure);
        proof {
            assert(flags@ =~= unindexed(ns, ix, id).push(true));
            let nn = nodes@;
            let ni = flags@;
            assert forall|a: int, b: int| 0 <= a < b < nn.len() && ni[a] && ni[b] implies nn[a].pattern_id@
                != nn[b].pattern_id@ by {
                if b == ns.len() {
                } else {
                    assert(ix[a] && ix[b]);
                }
            }
            assert forall|a: int| 0 <= a < nn.len() implies node_wf(#[trigger] nn[a]) by {
                if a < ns.len() {
                    assert(nn[a] == ns[a]);
                }
            }
        }
        *self = ProceduralBackend { nodes, indexed: flags, edges, default_threshold, default_scope };
        r
    }

    /// Adds an edge between the procedures two ids reach, the weight
    /// clamped to [0, 1]; false when either id reaches none.
    pub fn add_edge(&mut self, from_id: &str, to_id: &str, relationship: &str, weight: u32) -> (r: bool)
        ensures
            r == (indexed_at(old(self).nodes(), old(self).indexed(), from_id@) is Some && indexed_at(
                old(self).nodes(),
                old(self).indexed(),
                to_id@,
            ) is Some),
            r ==> final(self).edges() == old(self).edges().push(
                (
                    indexed_at(old(self).nodes(), old(self).indexed(), from_id@)->0,
                    indexed_at(old(self).nodes(), old(self).indexed(), to_id@)->0,
                    relationship@,
                    f32_unit_clamp(weight),
                ),
            ),
            !r ==> final(self).edges() == old(self).edges(),
            final(self).nodes() == old(self).nodes(),
            final(self).indexed() == old(self).indexed(),
            final(self).threshold() == old(self).threshold(),
            final(self).scope() == old(self).scope(),
    {
        proof {
            use_type_invariant(&*self);
        }
        let f = self.find(from_id);
        let t = self.find(to_id);
        match (f, t) {
            (Some(a), Some(b)) => {
                let ghost before = edge_views(self.edges@);
                let e = ProcedureEdge::new(relationship, weight);
                let mut edges: Vec<(usize, usize, ProcedureEdge)> = Vec::new();
                std::mem::swap(&mut edges, &mut self.edges);
                edges.push((a, b, e));
                proof {
                    assert(edge_views(edges@) =~= before.push((a as int, b as int, relationship@, f32_unit_clamp(weight))));
                }
                self.edges = edges;
                true
            },
            _ => false,
        }
    }

    /// A copy of the procedure an id reaches.
    pub fn get(&self, pattern_id: &str) -> (r: Option<ProcedureNode>)
        ensures
            match indexed_at(self.nodes(), self.indexed(), pattern_id@) {
                Some(i) => r matches Some(n) && node_copy(n, self.nodes()[i]),
                None => r is None,
            },
    {
        match self.find(pattern_id) {
            Some(i) => Some(self.nodes[i].copy()),
            None => None,
        }
    }

    /// Copies of the procedures at the given positions of edges, in order.
    fn copies_at(&self, positions: &Vec<usize>) -> (r: Vec<ProcedureNode>)
        requires
            forall|k: int| 0 <= k < positions@.len() ==> (#[trigger] positions@[k]) < self.nodes().len(),
        ensures
            r@.len() == positions@.len(),
            forall|k: int| 0 <= k < r@.len() ==> node_copy(#[trigger] r@[k], self.nodes()[positions@[k] as int]),
    {
        let mut r: Vec<ProcedureNode> = Vec::new();
        let mut i: usize = 0;
        while i < positions.len()
            invariant
                i <= positions@.len(),
                r@.len() == i,
                forall|k: int| 0 <= k < positions@.len() ==> (#[trigger] positions@[k]) < self.nodes@.len(),
                forall|k: int| 0 <= k < i ==> node_copy(#[trigger] r@[k], self.nodes@[positions@[k] as int]),
            decreases positions@.len() - i,
        {
            r.push(self.nodes[positions[i]].copy());
            i = i + 1;
        }
        r
    }

    /// Positions of the targets of the edges from `i` with a relationship,
    /// most recent first.
    fn targets_of(&self, i: usize, rel: &str) -> (r: Vec<usize>)
        ensures
            positions(r@) == targets(self.edges(), i as int, rel@),
            forall|k: int| 0 <= k < r@.len() ==> (#[trigger] r@[k]) < self.nodes().len(),
    {
        proof {
            use_type_invariant(self);
        }
        let ghost ev = edge_views(self.edges@);
        let ghost rv = ev.reverse();
        let ghost p = edge_from(i as int, rel@);
        let ghost f = edge_end(true);
        let mut r: Vec<usize> = Vec::new();
        let n = self.edges.len();
        let mut k: usize = 0;
        while k < n
            invariant
                n == ev.len(),
                ev == edge_views(self.edges@),
                rv == ev.reverse(),
                k <= n,
                graph_wf(self.nodes@, self.indexed@, ev),
                p == edge_from(i as int, rel@),
                f == edge_end(true),
                positions(r@) == rv.take(k as int).filter(p).map_values(f),
                forall|a: int| 0 <= a < r@.len() ==> (#[trigger] r@[a]) < self.nodes@.len(),
            decreases n - k,
        {
            let e = &self.edges[n - 1 - k];
            proof {
                assert(rv[k as int] == ev[n - 1 - k]);
                assert(ev[n - 1 - k] == edge_view(self.edges@[n - 1 - k]));
                lemma_filter_step(rv, p, k as int);
            }
            if e.0 == i && str_eq(e.2.relationship.as_str(), rel) {
                let ghost before = r@;
                r.push(e.1);
                proof {
                    assert(positions(r@) =~= positions(before).push(e.1 as int));
                }
            }
            k = k + 1;
        }
        proof {
            lemma_take_all(rv);
        }
        r
    }

    /// Positions of the sources of the edges into `i` with a relationship,
    /// most recent first.
    fn sources_of(&self, i: usize, rel: &str) -> (r: Vec<usize>)
        ensures
            positions(r@) == sources(self.edges(), i as int, rel@),
            forall|k: int| 0 <= k < r@.len() ==> (#[trigger] r@[k]) < self.nodes().len(),
    {
        proof {
            use_type_invariant(self);
        }
        let ghost ev = edge_views(self.edges@);
        let ghost rv = ev.reverse();
        let ghost p = edge_into(i as int, rel@);
        let ghost f = edge_end(false);
        let mut r: Vec<usize> = Vec::new();
        let n = self.edges.len();
        let mut k: usize = 0;
        while k < n
            invariant
                n == ev.len(),
                ev == edge_views(self.edges@),
                rv == ev.reverse(),
                k <= n,
                graph_wf(self.nodes@, self.indexed@, ev),
                p == edge_into(i as int, rel@),
                f == edge_end(false),
                positions(r@) == rv.take(k as int).filter(p).map_values(f),
                forall|a: int| 0 <= a < r@.len() ==> (#[trigger] r@[a]) < self.nodes@.len(),
            decreases n - k,
        {
            let e = &self.edges[n - 1 - k];
            proof {
                assert(rv[k as int] == ev[n - 1 - k]);
                assert(ev[n - 1 - k] == edge_view(self.edges@[n - 1 - k]));
                lemma_filter_step(rv, p, k as int);
            }
            if e.1 == i && str_eq(e.2.relationship.as_str(), rel) {
                let ghost before = r@;
                r.push(e.0);
                proof {
                    assert(positions(r@) =~= positions(before).push(e.0 as int));
                }
            }
            k = k + 1;
        }
        proof {
            lemma_take_all(rv);
        }
        r
    }

    /// Copies of the procedures the procedure an id reaches leads to by
    /// edges with a relationship, most recent edge first.
    pub fn get_dependencies(&self, pattern_id: &str, relationship: &str) -> (r: Vec<ProcedureNode>)
        ensures
            match indexed_at(self.nodes(), self.indexed(), pattern_id@) {
                Some(i) => {
                    let t = targets(self.edges(), i, relationship@);
                    r@.len() == t.len() && forall|k: int| 0 <= k < t.len() ==> node_copy(#[trigger] r@[k], self.nodes()[t[k]])
                },
                None => r@.len() == 0,
            },
    {
        match self.find(pattern_id) {
            Some(i) => {
                let ps = self.targets_of(i, relationship);
                let r = self.copies_at(&ps);
                proof {
                    assert forall|k: int| 0 <= k < ps@.len() implies ps@[k] as int == targets(self.edges(), i as int, relationship@)[k] by {
                        assert(positions(ps@)[k] == ps@[k] as int);
                    }
                }
                r
            },
            None => Vec::new(),
        }
    }

    /// Copies of the procedures that lead to the procedure an id reaches by
    /// edges with a relationship, most recent edge first.
    pub fn get_dependents(&self, pattern_id: &str, relationship: &str) -> (r: Vec<ProcedureNode>)
        ensures
            match indexed_at(self.nodes(), self.indexed(), pattern_id@) {
                Some(i) => {
                    let t = sources(self.edges(), i, relationship@);
                    r@.len() == t.len() && forall|k: int| 0 <= k < t.len() ==> node_copy(#[trigger] r@[k], self.nodes()[t[k]])
                },
                None => r@.len() == 0,
            },
    {
        match self.find(pattern_id) {
            Some(i) => {
                let ps = self.sources_of(i, relationship);
                let r = self.copies_at(&ps);
                proof {
                    assert forall|k: int| 0 <= k < ps@.len() implies ps@[k] as int == sources(self.edges(), i as int, relationship@)[k] by {
                        assert(positions(ps@)[k] == ps@[k] as int);
                    }
                }
                r
            },
            None => Vec::new(),
        }
    }
}


/// The records a lookup returns at instant `now`: for a pattern, the
/// procedures whose pattern's similarity to the query (leading `$`
/// dropped) reaches the threshold (the default when none), most similar
/// first, limited; for a key lookup of an id, the procedure it reaches
/// (modifiers not applied); otherwise the procedures satisfying the
/// predicate, filtered by scope and namespace, limited.
pub open spec fn procedural_lookup(b: ProceduralBackend, p: Predicate, m: Modifiers, now: Timestamp) -> Seq<RecordView> {
    match p {
        Predicate::Pattern { pattern_var, threshold } => {
            let t = match threshold {
                Some(x) => x,
                None => b.threshold(),
            };
            unscored(
                limited(
                    sort_stable(pattern_hits(b.nodes(), strip_leading(pattern_var@, '$'), t, b.scope(), now), score_gt()),
                    m.limit,
                ),
            )
        },
        _ => match key_id(p) {
            Some(id) => match indexed_at(b.nodes(), b.indexed(), id) {
                Some(i) => seq![proc_record(b.nodes()[i], b.scope(), now)],
                None => Seq::empty(),
            },
            None => limited(
                in_namespace(
                    in_scope(
                        b.nodes().filter(|n: ProcedureNode| proc_matches(n, p)).map_values(
                            |n: ProcedureNode| proc_record(n, b.scope(), now),
                        ),
                        m.scope,
                    ),
                    namespace_of(m),
                ),
                m.limit,
            ),
        },
    }
}

/// `count_true` grows by the flags taken.
proof fn lemma_count_take(ks: Seq<bool>, i: int)
    requires
        0 <= i < ks.len(),
    ensures
        count_true(ks.take(i + 1)) == count_true(ks.take(i)) + if ks[i] { 1nat } else { 0nat },
{
    assert(ks.take(i + 1).drop_last() =~= ks.take(i));
}

/// `count_true` of a prefix is at most that of a longer prefix.
proof fn lemma_count_mono(ks: Seq<bool>, i: int, j: int)
    requires
        0 <= i <= j <= ks.len(),
    ensures
        count_true(ks.take(i)) <= count_true(ks.take(j)),
        i < j && ks[i] ==> count_true(ks.take(i)) < count_true(ks.take(j)),
    decreases j - i,
{
    if i < j {
        lemma_count_mono(ks, i, j - 1);
        lemma_count_take(ks, j - 1);
        if ks[i] && i == j - 1 {
        }
    }
}

/// Selecting a prefix one longer adds its last element when flagged.
proof fn lemma_select_step<A>(s: Seq<A>, ks: Seq<bool>, i: int)
    requires
        0 <= i < s.len(),
        s.len() == ks.len(),
    ensures
        select(s.take(i + 1), ks.take(i + 1)) == if ks[i] {
            select(s.take(i), ks.take(i)).push(s[i])
        } else {
            select(s.take(i), ks.take(i))
        },
{
    assert(s.take(i + 1).drop_last() =~= s.take(i));
    assert(ks.take(i + 1).drop_last() =~= ks.take(i));
}

/// A selection holds as many elements as flags are set.
proof fn lemma_select_len<A>(s: Seq<A>, ks: Seq<bool>)
    requires
        s.len() == ks.len(),
    ensures
        select(s, ks).len() == count_true(ks),
    decreases s.len(),
{
    if s.len() > 0 {
        lemma_select_len(s.drop_last(), ks.drop_last());
    }
}

/// The element at a flagged position is the selection's element with as
/// many flags before it.
proof fn lemma_select_at<A>(s: Seq<A>, ks: Seq<bool>, i: int)
    requires
        s.len() == ks.len(),
        0 <= i < s.len(),
        ks[i],
    ensures
        count_true(ks.take(i)) < select(s, ks).len(),
        select(s, ks)[count_true(ks.take(i)) as int] == s[i],
    decreases s.len(),
{
    let n = s.len() as int;
    lemma_select_len(s.drop_last(), ks.drop_last());
    if i < n - 1 {
        lemma_select_at(s.drop_last(), ks.drop_last(), i);
        assert(ks.drop_last().take(i) =~= ks.take(i));
    } else {
        assert(ks.take(i) =~= ks.drop_last());
    }
}

/// Every flagged position is reached by exactly one index of the selection.
proof fn lemma_select_origin<A>(s: Seq<A>, ks: Seq<bool>, j: int) -> (i: int)
    requires
        s.len() == ks.len(),
        0 <= j < select(s, ks).len(),
    ensures
        0 <= i < s.len(),
        ks[i],
        count_true(ks.take(i)) == j,
        select(s, ks)[j] == s[i],
    decreases s.len(),
{
    lemma_select_len(s, ks);
    let n = s.len() as int;
    let p = select(s.drop_last(), ks.drop_last());
    lemma_select_len(s.drop_last(), ks.drop_last());
    if j < p.len() {
        let i = lemma_select_origin(s.drop_last(), ks.drop_last(), j);
        assert(ks.drop_last().take(i) =~= ks.take(i));
        i
    } else {
        assert(ks.take(n - 1) =~= ks.drop_last());
        n - 1
    }
}

/// Two flagged positions with as many flags before them are the same.
proof fn lemma_same_origin(ks: Seq<bool>, i: int, j: int)
    requires
        0 <= i < ks.len(),
        0 <= j < ks.len(),
        ks[i],
        ks[j],
        count_true(ks.take(i)) == count_true(ks.take(j)),
    ensures
        i == j,
{
    if i < j {
        lemma_count_mono(ks, i, j);
    } else if j < i {
        lemma_count_mono(ks, j, i);
    }
}

impl ProceduralBackend {
    /// The pattern matches with their similarities, in graph order.
    fn pattern_records(&self, query: &str, threshold: u32, now: Timestamp) -> (r: Vec<(u32, MemoryRecord)>)
        ensures
            scored_views(r@) == pattern_hits(self.nodes(), query@, threshold, self.scope(), now),
    {
        let ghost s = self.nodes@;
        let ghost pred = |n: ProcedureNode| f32_ge(jaccard(query@, n.pattern@), threshold);
        let ghost f = |n: ProcedureNode| (jaccard(query@, n.pattern@), proc_record(n, self.scope(), now));
        let mut out: Vec<(u32, MemoryRecord)> = Vec::new();
        let mut i: usize = 0;
        while i < self.nodes.len()
            invariant
                i <= self.nodes@.len(),
                s == self.nodes@,
                pred == (|n: ProcedureNode| f32_ge(jaccard(query@, n.pattern@), threshold)),
                f == (|n: ProcedureNode| (jaccard(query@, n.pattern@), proc_record(n, self.scope(), now))),
                scored_views(out@) == s.take(i as int).filter(pred).map_values(f),
            decreases self.nodes@.len() - i,
        {
            proof {
                lemma_filter_step(s, pred, i as int);
            }
            let sim = jaccard_similarity(query, self.nodes[i].pattern.as_str());
            if f32_bits_ge(sim, threshold) {
                let rec = self.nodes[i].to_memory_record_at(self.default_scope, now);
                let ghost before = out@;
                let ghost rv = rec@;
                out.push((sim, rec));
                proof {
                    assert(scored_views(out@) =~= scored_views(before).push((sim, rv)));
                    assert(f(s[i as int]) == (sim, rv));
                    assert(scored_views(out@) =~= s.take(i + 1).filter(pred).map_values(f));
                }
            } else {
                assert(scored_views(out@) =~= s.take(i + 1).filter(pred).map_values(f));
            }
            i = i + 1;
        }
        proof {
            lemma_take_all(s);
        }
        out
    }

    /// The records of the procedures satisfying `p`, in graph order.
    fn matching_records(&self, p: &Predicate, now: Timestamp) -> (r: Vec<MemoryRecord>)
        ensures
            record_views(r@) == self.nodes().filter(|n: ProcedureNode| proc_matches(n, *p)).map_values(
                |n: ProcedureNode| proc_record(n, self.scope(), now),
            ),
    {
        let ghost s = self.nodes@;
        let ghost pred = |n: ProcedureNode| proc_matches(n, *p);
        let ghost f = |n: ProcedureNode| proc_record(n, self.scope(), now);
        let mut out: Vec<MemoryRecord> = Vec::new();
        let mut i: usize = 0;
        while i < self.nodes.len()
            invariant
                i <= self.nodes@.len(),
                s == self.nodes@,
                pred == (|n: ProcedureNode| proc_matches(n, *p)),
                f == (|n: ProcedureNode| proc_record(n, self.scope(), now)),
                record_views(out@) == s.take(i as int).filter(pred).map_values(f),
            decreases self.nodes@.len() - i,
        {
            proof {
                lemma_filter_step(s, pred, i as int);
            }
            if matches_predicate(&self.nodes[i], p) {
                let rec = self.nodes[i].to_memory_record_at(self.default_scope, now);
                let ghost before = out@;
                out.push(rec);
                proof {
                    assert(record_views(out@) =~= record_views(before).push(f(s[i as int])));
                    assert(record_views(out@) =~= s.take(i + 1).filter(pred).map_values(f));
                }
            } else {
                assert(record_views(out@) =~= s.take(i + 1).filter(pred).map_values(f));
            }
            i = i + 1;
        }
        proof {
            lemma_take_all(s);
        }
        out
    }

    /// The records a lookup returns at instant `now` (see
    /// `procedural_lookup`).
    pub fn lookup_at(&self, p: &Predicate, m: &Modifiers, now: Timestamp) -> (r: Vec<MemoryRecord>)
        ensures
            record_views(r@) == procedural_lookup(*self, *p, *m, now),
    {
        proof {
            reveal_strlit("pattern_id");
            reveal_strlit("id");
        }
        match p {
            Predicate::Pattern { pattern_var, threshold } => {
                let t = match threshold {
                    Some(x) => *x,
                    None => self.default_threshold,
                };
                let query = strip_leading_char(pattern_var.as_str(), '$');
                let hits = self.pattern_records(query.as_str(), t, now);
                let sorted = sort_scored(hits);
                first_records(sorted, m.limit)
            },
            _ => {
                let id: Option<&String> = match p {
                    Predicate::Key { field, value } => match value {
                        Value::String(s) => if str_eq(field.as_str(), "pattern_id") || str_eq(field.as_str(), "id") {
                            Some(s)
                        } else {
                            None
                        },
                        _ => None,
                    },
                    _ => None,
                };
                match id {
                    Some(k) => {
                        let mut out: Vec<MemoryRecord> = Vec::new();
                        match self.find(k.as_str()) {
                            Some(i) => {
                                let rec = self.nodes[i].to_memory_record_at(self.default_scope, now);
                                out.push(rec);
                                assert(record_views(out@) =~= seq![proc_record(self.nodes()[i as int], self.scope(), now)]);
                            },
                            None => {
                                assert(record_views(out@) =~= Seq::<RecordView>::empty());
                            },
                        }
                        out
                    },
                    None => {
                        let found = self.matching_records(p, now);
                        let mut scoped = scoped_records(found, m);
                        match m.limit {
                            Some(n) => truncate_records(&mut scoped, n),
                            None => {},
                        }
                        scoped
                    },
                }
            },
        }
    }

    /// The records a lookup returns now.
    pub fn lookup(&self, p: &Predicate, m: &Modifiers) -> (r: Vec<MemoryRecord>)
        ensures
            exists|now: Timestamp| now.wf() && record_views(r@) == procedural_lookup(*self, *p, *m, now),
    {
        let now = clock_now();
        self.lookup_at(p, m, now)
    }

    /// A recall in procedural memory is a lookup.
    pub fn recall(&self, p: &Predicate, m: &Modifiers) -> (r: Vec<MemoryRecord>)
        ensures
            exists|now: Timestamp| now.wf() && record_views(r@) == procedural_lookup(*self, *p, *m, now),
    {
        self.lookup(p, m)
    }

    /// Removes the procedures the index reaches that satisfy `p`, with the
    /// edges touching them; the other procedures keep their order.
    /// Returns how many procedures were removed.
    pub fn forget(&mut self, p: &Predicate) -> (r: u64)
        ensures
            final(self).nodes() == select(old(self).nodes(), kept_flags(old(self).nodes(), old(self).indexed(), *p)),
            final(self).indexed() == select(
                old(self).indexed(),
                kept_flags(old(self).nodes(), old(self).indexed(), *p),
            ),
            final(self).edges() == kept_edges(old(self).edges(), kept_flags(old(self).nodes(), old(self).indexed(), *p)),
            r == old(self).nodes().len() - final(self).nodes().len(),
            final(self).threshold() == old(self).threshold(),
            final(self).scope() == old(self).scope(),
    {
        proof {
            use_type_invariant(&*self);
        }
        let ghost kf = kept_flags(self.nodes@, self.indexed@, *p);
        let n = self.nodes.len();
        let mut ks: Vec<bool> = Vec::new();
        let mut pos: Vec<usize> = Vec::new();
        let mut count: usize = 0;
        let mut i: usize = 0;
        while i < n
            invariant
                n == self.nodes@.len(),
                self.nodes@.len() == self.indexed@.len(),
                kf == kept_flags(self.nodes@, self.indexed@, *p),
                i <= n,
                ks@ == kf.take(i as int),
                pos@.len() == i,
                forall|k: int| 0 <= k < i ==> #[trigger] pos@[k] == count_true(kf.take(k)),
                count == count_true(kf.take(i as int)),
                count <= i,
            decreases n - i,
        {
            let keep = !(self.indexed[i] && matches_predicate(&self.nodes[i], p));
            proof {
                lemma_count_take(kf, i as int);
                assert(kf.take(i + 1) =~= kf.take(i as int).push(keep));
            }
            pos.push(count);
            ks.push(keep);
            if keep {
                count = count + 1;
            }
            i = i + 1;
        }
        proof {
            assert(kf.take(n as int) =~= kf);
        }
        let mut g = ProceduralBackend::new();
        std::mem::swap(&mut g, self);
        let ProceduralBackend { nodes, indexed, edges, default_threshold, default_scope } = g;
        let ghost ns = nodes@;
        let ghost ix = indexed@;
        let ghost ev = edge_views(edges@);
        // the kept procedures and their flags
        let mut new_nodes: Vec<ProcedureNode> = Vec::new();
        let mut new_flags: Vec<bool> = Vec::new();
        let mut rest = crate::seqs::reversed(nodes);
        let mut j: usize = 0;
        while j < n
            invariant
                n == ns.len(),
                ns.len() == ix.len(),
                ix == indexed@,
                kf.len() == n,
                ks@ == kf,
                j <= n,
                rest@.len() == n - j,
                forall|a: int| 0 <= a < n - j ==> #[trigger] rest@[a] == ns[n - 1 - a],
                new_nodes@ == select(ns.take(j as int), kf.take(j as int)),
                new_flags@ == select(ix.take(j as int), kf.take(j as int)),
            decreases n - j,
        {
            let ghost rv = rest@;
            let x = rest.pop().unwrap();
            proof {
                assert(x == ns[j as int]);
                assert forall|a: int| 0 <= a < n - j - 1 implies #[trigger] rest@[a] == ns[n - 1 - a] by {
                    assert(rest@[a] == rv[a]);
                }
                lemma_select_step(ns, kf, j as int);
                lemma_select_step(ix, kf, j as int);
            }
            if ks[j] {
                new_nodes.push(x);
                new_flags.push(indexed[j]);
            }
            j = j + 1;
        }
        proof {
            assert(ns.take(n as int) =~= ns);
            assert(ix.take(n as int) =~= ix);
            assert(kf.take(n as int) =~= kf);
        }
        // the edges between kept procedures, renumbered
        let ghost kp = edge_kept(kf);
        let ghost rn = edge_renumbered(kf);
        let mut new_edges: Vec<(usize, usize, ProcedureEdge)> = Vec::new();
        let mut k: usize = 0;
        while k < edges.len()
            invariant
                ev == edge_views(edges@),
                graph_wf(ns, ix, ev),
                n == ns.len(),
                kf.len() == n,
                ks@ == kf,
                pos@.len() == n,
                forall|a: int| 0 <= a < n ==> #[trigger] pos@[a] == count_true(kf.take(a)),
                kp == edge_kept(kf),
                rn == edge_renumbered(kf),
                k <= edges@.len(),
                edge_views(new_edges@) == ev.take(k as int).filter(kp).map_values(rn),
            decreases edges@.len() - k,
        {
            let e = &edges[k];
            proof {
                assert(ev[k as int] == edge_view(edges@[k as int]));
                assert(0 <= ev[k as int].0 < n && 0 <= ev[k as int].1 < n);
                lemma_filter_step(ev, kp, k as int);
            }
            if ks[e.0] && ks[e.1] {
                let ne = (pos[e.0], pos[e.1], ProcedureEdge { relationship: e.2.relationship.clone(), weight: e.2.weight });
                let ghost before = edge_views(new_edges@);
                new_edges.push(ne);
                proof {
                    assert(edge_views(new_edges@) =~= before.push(rn(ev[k as int])));
                }
            }
            k = k + 1;
        }
        proof {
            lemma_take_all(ev);
            lemma_select_len(ns, kf);
            lemma_select_len(ix, kf);
            let nn = new_nodes@;
            let nf = new_flags@;
            let ne = edge_views(new_edges@);
            assert forall|a: int| 0 <= a < nn.len() implies node_wf(#[trigger] nn[a]) by {
                let o = lemma_select_origin(ns, kf, a);
            }
            assert forall|a: int, b: int| 0 <= a < b < nn.len() && nf[a] && nf[b] implies nn[a].pattern_id@
                != nn[b].pattern_id@ by {
                let ia = lemma_select_origin(ns, kf, a);
                let ib = lemma_select_origin(ns, kf, b);
                let ja = lemma_select_origin(ix, kf, a);
                let jb = lemma_select_origin(ix, kf, b);
                lemma_same_origin(kf, ia, ja);
                lemma_same_origin(kf, ib, jb);
                if ib <= ia {
                    lemma_count_mono(kf, ib, ia);
                }
            }
            assert forall|q: int| 0 <= q < ne.len() implies 0 <= (#[trigger] ne[q]).0 < nn.len() && 0 <= ne[q].1
                < nn.len() by {
                let fe = ev.filter(kp);
                crate::seqs::lemma_filter_member(ev, kp, q);
                let x = fe[q];
                assert(kp(x));
                lemma_count_mono(kf, x.0, n as int);
                lemma_count_mono(kf, x.1, n as int);
                assert(kf.take(n as int) =~= kf);
            }
        }
        let removed = n - new_nodes.len();
        *self = ProceduralBackend {
            nodes: new_nodes,
            indexed: new_flags,
            edges: new_edges,
            default_threshold,
            default_scope,
        };
        removed as u64
    }

    /// Whether every procedure an update with `p` would change can still
    /// have its version bumped.
    pub fn can_update(&self, p: &Predicate) -> (r: bool)
        ensures
            r == forall|i: int|
                0 <= i < self.nodes().len() && 0 <= i < self.indexed().len() && self.indexed()[i] && proc_matches(
                    #[trigger] self.nodes()[i],
                    *p,
                ) ==> self.nodes()[i].version < u64::MAX,
    {
        proof {
            use_type_invariant(self);
        }
        let mut i: usize = 0;
        while i < self.nodes.len()
            invariant
                i <= self.nodes@.len(),
                self.nodes@.len() == self.indexed@.len(),
                forall|k: int|
                    0 <= k < i && self.indexed@[k] && proc_matches(#[trigger] self.nodes@[k], *p) ==> self.nodes@[k].version
                        < u64::MAX,
            decreases self.nodes@.len() - i,
        {
            if self.indexed[i] && self.nodes[i].version == u64::MAX && matches_predicate(&self.nodes[i], p) {
                return false;
            }
            i = i + 1;
        }
        true
    }

    /// The number of procedures.
    pub fn count(&self) -> (r: usize)
        ensures
            r == self.nodes().len(),
    {
        self.nodes.len()
    }

    /// Removes every procedure and edge.
    pub fn clear(&mut self)
        ensures
            final(self).nodes().len() == 0,
            final(self).edges().len() == 0,
            final(self).threshold() == old(self).threshold(),
            final(self).scope() == old(self).scope(),
    {
        let t = self.default_threshold;
        let sc = self.default_scope;
        let r = ProceduralBackend { nodes: Vec::new(), indexed: Vec::new(), edges: Vec::new(), default_threshold: t, default_scope: sc };
        assert(edge_views(r.edges@) =~= Seq::<(int, int, Seq<char>, u32)>::empty());
        *self = r;
    }

    /// The memory kind this backend holds.
    pub fn memory_type(&self) -> (r: MemoryType)
        ensures
            r == MemoryType::Procedural,
    {
        MemoryType::Procedural
    }

    /// What this backend offers.
    pub fn info(&self) -> (r: BackendInfo)
        ensures
            r == backend_info_of(MemoryType::Procedural),
    {
        BackendInfo::procedural()
    }
}

impl Default for ProceduralBackend {
    fn default() -> (r: ProceduralBackend)
        ensures
            r.nodes().len() == 0,
            r.edges().len() == 0,
            r.threshold() == F32_THRESHOLD,
            r.scope() == Scope::Shared,
    {
        ProceduralBackend::new()
    }
}


// ---------------------------------------------------------------------------
// Payloads
// ---------------------------------------------------------------------------

/// The strings among an array's items, in order (`filter_map(as_str)`).
pub open spec fn array_strings(items: Seq<JsonView>) -> Seq<Seq<char>>
    decreases items.len(),
{
    if items.len() == 0 {
        Seq::empty()
    } else {
        let p = array_strings(items.drop_last());
        match items.last() {
            JsonView::String(s) => p.push(s),
            _ => p,
        }
    }
}

/// The steps a payload gives, if any: the strings of a `steps` array, or
/// the lines of a `steps` string.
pub open spec fn payload_steps(data: JsonView) -> Option<Seq<Seq<char>>> {
    match json_get(data, "steps"@) {
        Some(JsonView::Array(items)) => Some(array_strings(items)),
        Some(JsonView::String(s)) => Some(lines_of(s)),
        _ => None,
    }
}

/// A count member of a payload: an unsigned integer, or a signed one
/// reinterpreted (`as u64`).
pub open spec fn payload_count(data: JsonView, k: Seq<char>) -> Option<u64> {
    match json_get(data, k) {
        Some(v) => match json_as_u64(v) {
            Some(u) => Some(u),
            None => match json_as_i64(v) {
                Some(i) => Some(i as u64),
                None => None,
            },
        },
        None => None,
    }
}

/// Variables with each number member of an object set in turn.
pub open spec fn vars_from_members(acc: Seq<(Seq<char>, u64)>, m: Seq<(Seq<char>, JsonView)>) -> Seq<(Seq<char>, u64)>
    decreases m.len(),
{
    if m.len() == 0 {
        acc
    } else {
        let p = vars_from_members(acc, m.drop_last());
        match json_as_f64(m.last().1) {
            Some(b) => var_set(p, m.last().0, b),
            None => p,
        }
    }
}

/// The pieces of a `key=value,...` text: for each piece between commas
/// that holds an `=`, the trimmed text before and after the first one.
pub open spec fn var_pairs(text: Seq<char>) -> Seq<Option<(Seq<char>, Seq<char>)>> {
    split_on(text, ',').map_values(
        |piece: Seq<char>| match split_once(piece, '=') {
            Some((k, v)) => Some((trimmed_of(k), trimmed_of(v))),
            None => None,
        },
    )
}

/// Variables with each pair whose value was read set in turn.
pub open spec fn vars_from_pairs(
    acc: Seq<(Seq<char>, u64)>,
    pairs: Seq<Option<(Seq<char>, Seq<char>)>>,
    values: Seq<Option<u64>>,
) -> Seq<(Seq<char>, u64)>
    decreases pairs.len(),
{
    if pairs.len() == 0 || values.len() != pairs.len() {
        acc
    } else {
        let p = vars_from_pairs(acc, pairs.drop_last(), values.drop_last());
        match (pairs.last(), values.last()) {
            (Some((k, _)), Some(x)) => var_set(p, k, x),
            _ => p,
        }
    }
}

/// The `key=value` pairs a payload's `variables` text holds (none when it
/// is not text).
pub open spec fn payload_var_texts(data: JsonView) -> Seq<Option<(Seq<char>, Seq<char>)>> {
    match json_get(data, "variables"@) {
        Some(JsonView::String(t)) => var_pairs(t),
        _ => Seq::empty(),
    }
}

/// Whether `values` are what `parse` read from the pairs' value texts.
pub open spec fn parsed_values<F: Fn(String) -> Option<u64>>(
    parse: F,
    pairs: Seq<Option<(Seq<char>, Seq<char>)>>,
    values: Seq<Option<u64>>,
) -> bool {
    &&& values.len() == pairs.len()
    &&& forall|i: int|
        0 <= i < pairs.len() ==> match #[trigger] pairs[i] {
            Some((_, v)) => exists|s: String| s@ == v && call_ensures(parse, (s,), values[i]),
            None => values[i] is None,
        }
}

/// The variables after a payload's `variables` member: an object's number
/// members, or the pairs of a text with the values read from it.
pub open spec fn payload_vars(
    acc: Seq<(Seq<char>, u64)>,
    data: JsonView,
    values: Seq<Option<u64>>,
) -> Seq<(Seq<char>, u64)> {
    match json_get(data, "variables"@) {
        Some(JsonView::Object(m)) => vars_from_members(acc, m),
        Some(JsonView::String(t)) => vars_from_pairs(acc, var_pairs(t), values),
        _ => acc,
    }
}

/// Whether `t` is the procedure a payload stored under `key` becomes, with
/// `values` read from a variables text: the id from `pattern_id` (else the
/// key), pattern (else empty), steps (else none), severity (else "info"),
/// source (else "manual"), confidence narrowed (else 0.5), the counts
/// (else 0), variables, metadata (else null), version 1.
pub open spec fn stored_proc(t: ProcedureNode, key: Seq<char>, data: JsonView, values: Seq<Option<u64>>) -> bool {
    &&& t.pattern_id@ == match str_member(data, "pattern_id"@) {
        Some(s) => s,
        None => key,
    }
    &&& t.pattern@ == match str_member(data, "pattern"@) {
        Some(s) => s,
        None => Seq::empty(),
    }
    &&& step_views(t.steps@) == match payload_steps(data) {
        Some(v) => v,
        None => Seq::empty(),
    }
    &&& t.severity@ == match str_member(data, "severity"@) {
        Some(s) => s,
        None => "info"@,
    }
    &&& t.source@ == match str_member(data, "source"@) {
        Some(s) => s,
        None => "manual"@,
    }
    &&& t.confidence == match json_get(data, "confidence"@) {
        Some(v) => match payload_single(v) {
            Some(x) => x,
            None => F32_HALF,
        },
        None => F32_HALF,
    }
    &&& t.success_count == match payload_count(data, "success_count"@) {
        Some(c) => c,
        None => 0,
    }
    &&& t.failure_count == match payload_count(data, "failure_count"@) {
        Some(c) => c,
        None => 0,
    }
    &&& var_view(t.variables@) == payload_vars(Seq::empty(), data, values)
    &&& t.metadata@ == match json_get(data, "metadata"@) {
        Some(v) => v,
        None => JsonView::Null,
    }
    &&& t.version == 1
}

/// Whether `n` is procedure `o` after an update with payload `data`, with
/// `values` read from a variables text: pattern, severity, source,
/// confidence, steps, counts and metadata replaced where given, variables
/// set, the version one more.
pub open spec fn updated_proc(o: ProcedureNode, n: ProcedureNode, data: JsonView, values: Seq<Option<u64>>) -> bool {
    &&& n.pattern_id == o.pattern_id
    &&& n.pattern@ == match str_member(data, "pattern"@) {
        Some(s) => s,
        None => o.pattern@,
    }
    &&& n.severity@ == match str_member(data, "severity"@) {
        Some(s) => s,
        None => o.severity@,
    }
    &&& n.source@ == match str_member(data, "source"@) {
        Some(s) => s,
        None => o.source@,
    }
    &&& n.confidence == match json_get(data, "confidence"@) {
        Some(v) => match payload_single(v) {
            Some(x) => x,
            None => o.confidence,
        },
        None => o.confidence,
    }
    &&& step_views(n.steps@) == match payload_steps(data) {
        Some(v) => v,
        None => step_views(o.steps@),
    }
    &&& n.success_count == match payload_count(data, "success_count"@) {
        Some(c) => c,
        None => o.success_count,
    }
    &&& n.failure_count == match payload_count(data, "failure_count"@) {
        Some(c) => c,
        None => o.failure_count,
    }
    &&& var_view(n.variables@) == payload_vars(var_view(o.variables@), data, values)
    &&& n.metadata@ == match json_get(data, "metadata"@) {
        Some(v) => v,
        None => o.metadata@,
    }
    &&& n.version == o.version + 1
}

/// Sets variable `k` to `x`.
fn set_var(vars: &mut Vec<(String, u64)>, k: String, x: u64)
    requires
        vars_unique(var_view(old(vars)@)),
    ensures
        var_view(final(vars)@) == var_set(var_view(old(vars)@), k@, x),
        vars_unique(var_view(final(vars)@)),
{
    let ghost v = var_view(vars@);
    let ghost kv = k@;
    let mut i: usize = 0;
    while i < vars.len()
        invariant
            i <= vars@.len(),
            v == var_view(vars@),
            v == var_view(old(vars)@),
            vars_unique(v),
            kv == k@,
            forall|j: int| 0 <= j < i ==> v[j].0 != kv,
        decreases vars@.len() - i,
    {
        if str_eq(vars[i].0.as_str(), k.as_str()) {
            proof {
                let c = choose|c: int| 0 <= c < v.len() && v[c].0 == kv;
                assert(v[i as int].0 == kv);
                if c != i as int {
                    if c < i as int {
                        assert(v[c].0 != kv);
                    } else {
                        assert(v[i as int].0 != v[c].0);
                    }
                }
                assert(var_index(v, kv) == Some(i as int));
            }
            vars.set(i, (k, x));
            proof {
                assert(var_view(vars@) =~= v.update(i as int, (kv, x)));
                let nv = var_view(vars@);
                assert forall|a: int, b: int| 0 <= a < b < nv.len() implies nv[a].0 != nv[b].0 by {
                    assert(v[a].0 != v[b].0);
                }
            }
            return;
        }
        i = i + 1;
    }
    vars.push((k, x));
    proof {
        assert(var_index(v, kv) is None);
        assert(var_view(vars@) =~= v.push((kv, x)));
        let nv = var_view(vars@);
        assert forall|a: int, b: int| 0 <= a < b < nv.len() implies nv[a].0 != nv[b].0 by {
            if b == v.len() {
                assert(v[a].0 != kv);
            } else {
                assert(v[a].0 != v[b].0);
            }
        }
    }
}

/// The pairs of a variables text (see `var_pairs`).
fn var_pairs_of(text: &str) -> (r: Vec<Option<(String, String)>>)
    ensures
        pair_views(r@) == var_pairs(text@),
{
    let pieces = split_char(text, ',');
    let ghost pv = string_views(pieces@);
    let mut out: Vec<Option<(String, String)>> = Vec::new();
    let mut i: usize = 0;
    while i < pieces.len()
        invariant
            i <= pieces@.len(),
            pv == string_views(pieces@),
            pv == split_on(text@, ','),
            pair_views(out@) == var_pairs(text@).take(i as int),
        decreases pieces@.len() - i,
    {
        let e = match split_once_char(pieces[i].as_str(), '=') {
            Some((k, v)) => {
                let kt = owned(trim_str(k.as_str()));
                let vt = owned(trim_str(v.as_str()));
                Some((kt, vt))
            },
            None => None,
        };
        proof {
            assert(pv[i as int] == pieces@[i as int]@);
        }
        let ghost before = out@;
        out.push(e);
        proof {
            assert(pair_views(out@) =~= pair_views(before).push(var_pairs(text@)[i as int]));
            assert(pair_views(out@) =~= var_pairs(text@).take(i + 1));
        }
        i = i + 1;
    }
    proof {
        assert(var_pairs(text@).take(pieces@.len() as int) =~= var_pairs(text@));
    }
    out
}

/// The views of pairs.
pub open spec fn pair_views(v: Seq<Option<(String, String)>>) -> Seq<Option<(Seq<char>, Seq<char>)>> {
    v.map_values(
        |e: Option<(String, String)>| match e {
            Some((a, b)) => Some((a@, b@)),
            None => None,
        },
    )
}

/// The values `parse` reads from the pairs' value texts.
fn parse_values<F: Fn(String) -> Option<u64>>(pairs: &Vec<Option<(String, String)>>, parse: &F) -> (r: Vec<Option<u64>>)
    requires
        forall|s: String| call_requires(*parse, (s,)),
    ensures
        parsed_values(*parse, pair_views(pairs@), r@),
{
    let ghost pv = pair_views(pairs@);
    let mut out: Vec<Option<u64>> = Vec::new();
    let mut i: usize = 0;
    while i < pairs.len()
        invariant
            i <= pairs@.len(),
            pv == pair_views(pairs@),
            out@.len() == i,
            forall|s: String| call_requires(*parse, (s,)),
            forall|j: int|
                0 <= j < i ==> match #[trigger] pv[j] {
                    Some((_, v)) => exists|s: String| s@ == v && call_ensures(*parse, (s,), out@[j]),
                    None => out@[j] is None,
                },
        decreases pairs@.len() - i,
    {
        match &pairs[i] {
            Some((_, v)) => {
                let s = v.clone();
                let ghost sv = s;
                let x = parse(s);
                assert(call_ensures(*parse, (sv,), x));
                out.push(x);
                proof {
                    let ghost pr = pairs@[i as int].unwrap();
                    assert(pv[i as int] == Some((pr.0@, pr.1@)));
                }
            },
            None => {
                out.push(None);
            },
        }
        i = i + 1;
    }
    out
}


/// The steps a payload gives (see `payload_steps`).
fn steps_of(data: &Json) -> (r: Option<Vec<String>>)
    ensures
        match payload_steps(data@) {
            Some(v) => r matches Some(x) && step_views(x@) == v,
            None => r is None,
        },
{
    proof {
        reveal_strlit("steps");
    }
    match data.get("steps") {
        Some(v) => match v {
            Json::Array(items) => {
                proof {
                    lemma_array_view(*items);
                }
                let ghost iv = items_view(items@);
                let mut out: Vec<String> = Vec::new();
                let mut i: usize = 0;
                while i < items.len()
                    invariant
                        i <= items@.len(),
                        iv == items_view(items@),
                        step_views(out@) == array_strings(iv.take(i as int)),
                    decreases items@.len() - i,
                {
                    proof {
                        assert(iv[i as int] == items@[i as int]@);
                        assert(iv.take(i + 1).drop_last() =~= iv.take(i as int));
                    }
                    match items[i].as_str() {
                        Some(x) => {
                            let ghost before = out@;
                            out.push(owned(x));
                            assert(step_views(out@) =~= step_views(before).push(x@));
                        },
                        None => {},
                    }
                    i = i + 1;
                }
                proof {
                    assert(iv.take(items@.len() as int) =~= iv);
                }
                Some(out)
            },
            Json::String(t) => {
                let ls = lines(t.as_str());
                proof {
                    assert(step_views(ls@) =~= string_views(ls@));
                }
                Some(ls)
            },
            _ => None,
        },
        None => None,
    }
}

/// A count member of a payload (see `payload_count`).
fn count_of(data: &Json, k: &str) -> (r: Option<u64>)
    ensures
        r == payload_count(data@, k@),
{
    match data.get(k) {
        Some(v) => match v.as_u64() {
            Some(u) => Some(u),
            None => match v.as_i64() {
                Some(i) => Some(i as u64),
                None => None,
            },
        },
        None => None,
    }
}

/// Applies a payload's `variables` member (see `payload_vars`).
#[verifier::spinoff_prover]
#[verifier::rlimit(40)]
fn apply_vars(
    vars: &mut Vec<(String, u64)>,
    data: &Json,
    pairs: &Vec<Option<(String, String)>>,
    values: &Vec<Option<u64>>,
)
    requires
        vars_unique(var_view(old(vars)@)),
        pair_views(pairs@) == payload_var_texts(data@),
        values@.len() == pairs@.len(),
    ensures
        var_view(final(vars)@) == payload_vars(var_view(old(vars)@), data@, values@),
        vars_unique(var_view(final(vars)@)),
{
    proof {
        reveal_strlit("variables");
    }
    let ghost v0 = var_view(vars@);
    match data.get("variables") {
        Some(v) => match v {
            Json::Object(m) => {
                proof {
                    lemma_object_view(*m);
                }
                let ghost mv = members_view(m@);
                let mut i: usize = 0;
                while i < m.len()
                    invariant
                        i <= m@.len(),
                        mv == members_view(m@),
                        vars_unique(var_view(vars@)),
                        var_view(vars@) == vars_from_members(v0, mv.take(i as int)),
                    decreases m@.len() - i,
                {
                    proof {
                        assert(mv[i as int] == (m@[i as int].0@, m@[i as int].1@));
                        assert(mv.take(i + 1).drop_last() =~= mv.take(i as int));
                    }
                    match m[i].1.as_f64_bits() {
                        Some(b) => set_var(vars, m[i].0.clone(), b),
                        None => {},
                    }
                    i = i + 1;
                }
                proof {
                    assert(mv.take(m@.len() as int) =~= mv);
                }
            },
            Json::String(_) => {
                let ghost pv = pair_views(pairs@);
                let mut i: usize = 0;
                while i < pairs.len()
                    invariant
                        i <= pairs@.len(),
                        values@.len() == pairs@.len(),
                        pv == pair_views(pairs@),
                        vars_unique(var_view(vars@)),
                        var_view(vars@) == vars_from_pairs(v0, pv.take(i as int), values@.take(i as int)),
                    decreases pairs@.len() - i,
                {
                    proof {
                        assert(pv.take(i + 1).drop_last() =~= pv.take(i as int));
                        assert(values@.take(i + 1).drop_last() =~= values@.take(i as int));
                    }
                    match (&pairs[i], values[i]) {
                        (Some((k, _)), Some(x)) => {
                            proof {
                                let ghost pr = pairs@[i as int].unwrap();
                                assert(pv[i as int] == Some((pr.0@, pr.1@)));
                            }
                            set_var(vars, k.clone(), x);
                        },
                        _ => {
                            proof {
                                if pairs@[i as int] is Some {
                                    let ghost pr = pairs@[i as int].unwrap();
                                    assert(pv[i as int] == Some((pr.0@, pr.1@)));
                                }
                            }
                        },
                    }
                    i = i + 1;
                }
                proof {
                    assert(pv.take(pairs@.len() as int) =~= pv);
                    assert(values@.take(pairs@.len() as int) =~= values@);
                }
            },
            _ => {},
        },
        None => {},
    }
}

/// The pairs of a payload's variables text, and the values `parse` reads
/// from them.
fn read_var_texts<F: Fn(String) -> Option<u64>>(data: &Json, parse: &F) -> (r: (Vec<Option<(String, String)>>, Vec<
    Option<u64>,
>))
    requires
        forall|s: String| call_requires(*parse, (s,)),
    ensures
        pair_views(r.0@) == payload_var_texts(data@),
        parsed_values(*parse, pair_views(r.0@), r.1@),
{
    proof {
        reveal_strlit("variables");
    }
    let pairs = match data.get("variables") {
        Some(v) => match v {
            Json::String(t) => var_pairs_of(t.as_str()),
            _ => {
                let e: Vec<Option<(String, String)>> = Vec::new();
                assert(pair_views(e@) =~= Seq::<Option<(Seq<char>, Seq<char>)>>::empty());
                e
            },
        },
        None => {
            let e: Vec<Option<(String, String)>> = Vec::new();
            assert(pair_views(e@) =~= Seq::<Option<(Seq<char>, Seq<char>)>>::empty());
            e
        },
    };
    let values = parse_values(&pairs, parse);
    (pairs, values)
}

/// The procedure a payload stored under `key` becomes (see `stored_proc`).
fn proc_from_payload(
    key: &str,
    data: &Json,
    pairs: &Vec<Option<(String, String)>>,
    values: &Vec<Option<u64>>,
) -> (r: ProcedureNode)
    requires
        pair_views(pairs@) == payload_var_texts(data@),
        values@.len() == pairs@.len(),
    ensures
        stored_proc(r, key@, data@, values@),
        node_wf(r),
{
    proof {
        reveal_strlit("pattern_id");
        reveal_strlit("pattern");
        reveal_strlit("severity");
        reveal_strlit("source");
        reveal_strlit("confidence");
        reveal_strlit("success_count");
        reveal_strlit("failure_count");
        reveal_strlit("metadata");
    }
    let pattern_id: String = match member_str(data, "pattern_id") {
        Some(x) => owned(x),
        None => owned(key),
    };
    let pattern: String = match member_str(data, "pattern") {
        Some(x) => owned(x),
        None => String::new(),
    };
    let steps: Vec<String> = match steps_of(data) {
        Some(v) => v,
        None => {
            let e: Vec<String> = Vec::new();
            assert(step_views(e@) =~= Seq::<Seq<char>>::empty());
            e
        },
    };
    let mut node = ProcedureNode::new(pattern_id.as_str(), pattern.as_str(), steps);
    match member_str(data, "severity") {
        Some(x) => {
            node.severity = owned(x);
        },
        None => {},
    }
    match member_str(data, "source") {
        Some(x) => {
            node.source = owned(x);
        },
        None => {},
    }
    match member_single(data, "confidence") {
        Some(x) => {
            node.confidence = x;
        },
        None => {},
    }
    match count_of(data, "success_count") {
        Some(c) => {
            node.success_count = c;
        },
        None => {},
    }
    match count_of(data, "failure_count") {
        Some(c) => {
            node.failure_count = c;
        },
        None => {},
    }
    proof {
        assert(var_view(node.variables@) =~= Seq::<(Seq<char>, u64)>::empty());
    }
    apply_vars(&mut node.variables, data, pairs, values);
    node.metadata = match data.get("metadata") {
        Some(v) => v.copy(),
        None => Json::Null,
    };
    node
}

impl ProceduralBackend {
    /// Stores a procedure from a payload as of instant `now` (see
    /// `stored_proc`); a variables text's values are read with `parse`.
    /// Returns its record.  The scope, namespace and time to live are not
    /// used: procedures are shared.
    pub fn store_at<F: Fn(String) -> Option<u64>>(
        &mut self,
        key: &str,
        data: Json,
        _scope: Scope,
        _namespace: Option<&str>,
        _ttl: Option<Ttl>,
        parse: &F,
        now: Timestamp,
    ) -> (r: MemoryRecord)
        requires
            forall|s: String| call_requires(*parse, (s,)),
        ensures
            exists|t: ProcedureNode, values: Seq<Option<u64>>|
                {
                    &&& parsed_values(*parse, payload_var_texts(data@), values)
                    &&& stored_proc(t, key@, data@, values)
                    &&& r@ == proc_record(t, old(self).scope(), now)
                    &&& final(self).nodes() == old(self).nodes().push(t)
                    &&& final(self).indexed() == unindexed(old(self).nodes(), old(self).indexed(), t.pattern_id@).push(
                        true,
                    )
                },
            final(self).edges() == old(self).edges(),
            final(self).threshold() == old(self).threshold(),
            final(self).scope() == old(self).scope(),
    {
        let (pairs, values) = read_var_texts(&data, parse);
        let node = proc_from_payload(key, &data, &pairs, &values);
        let record = node.to_memory_record_at(self.default_scope, now);
        let ghost t = node;
        self.add_procedure(node);
        record
    }

    /// Stores a procedure from a payload now (see `store_at`).
    pub fn store<F: Fn(String) -> Option<u64>>(
        &mut self,
        key: &str,
        data: Json,
        scope: Scope,
        namespace: Option<&str>,
        ttl: Option<Ttl>,
        parse: &F,
    ) -> (r: MemoryRecord)
        requires
            forall|s: String| call_requires(*parse, (s,)),
        ensures
            exists|t: ProcedureNode, values: Seq<Option<u64>>, now: Timestamp|
                {
                    &&& now.wf()
                    &&& parsed_values(*parse, payload_var_texts(data@), values)
                    &&& stored_proc(t, key@, data@, values)
                    &&& r@ == proc_record(t, old(self).scope(), now)
                    &&& final(self).nodes() == old(self).nodes().push(t)
                    &&& final(self).indexed() == unindexed(old(self).nodes(), old(self).indexed(), t.pattern_id@).push(
                        true,
                    )
                },
            final(self).edges() == old(self).edges(),
            final(self).threshold() == old(self).threshold(),
            final(self).scope() == old(self).scope(),
    {
        let now = clock_now();
        self.store_at(key, data, scope, namespace, ttl, parse, now)
    }

    /// Updates the procedures the index reaches that satisfy `p` with
    /// payload `data` (see `updated_proc`; a variables text is read once,
    /// with `parse`); returns how many.
    pub fn update<F: Fn(String) -> Option<u64>>(&mut self, p: &Predicate, data: &Json, parse: &F) -> (r: u64)
        requires
            forall|s: String| call_requires(*parse, (s,)),
            forall|i: int|
                0 <= i < old(self).nodes().len() && 0 <= i < old(self).indexed().len() && old(self).indexed()[i]
                    && proc_matches(#[trigger] old(self).nodes()[i], *p) ==> old(self).nodes()[i].version < u64::MAX,
        ensures
            exists|values: Seq<Option<u64>>|
                {
                    &&& parsed_values(*parse, payload_var_texts(data@), values)
                    &&& forall|i: int|
                        0 <= i < old(self).nodes().len() ==> {
                            let o = #[trigger] old(self).nodes()[i];
                            let n = final(self).nodes()[i];
                            if old(self).indexed()[i] && proc_matches(o, *p) {
                                updated_proc(o, n, data@, values)
                            } else {
                                n == o
                            }
                        }
                },
            final(self).nodes().len() == old(self).nodes().len(),
            final(self).indexed() == old(self).indexed(),
            final(self).edges() == old(self).edges(),
            r == old(self).nodes().len() - count_true(kept_flags(old(self).nodes(), old(self).indexed(), *p)),
            final(self).threshold() == old(self).threshold(),
            final(self).scope() == old(self).scope(),
    {
        proof {
            use_type_invariant(&*self);
        }
        let (pairs, values) = read_var_texts(data, parse);
        let ghost kf = kept_flags(self.nodes@, self.indexed@, *p);
        let mut g = ProceduralBackend::new();
        std::mem::swap(&mut g, self);
        let ProceduralBackend { nodes, indexed, edges, default_threshold, default_scope } = g;
        let ghost ns = nodes@;
        proof {
            assert(ns == old(self).nodes());
            assert(indexed@ == old(self).indexed());
            assert forall|k: int| 0 <= k < ns.len() && indexed@[k] && proc_matches(#[trigger] ns[k], *p) implies ns[k].version
                < u64::MAX by {
                assert(old(self).nodes()[k] == ns[k]);
            }
        }
        let mut nodes = nodes;
        let mut count: u64 = 0;
        let mut i: usize = 0;
        while i < nodes.len()
            invariant
                nodes@.len() == ns.len(),
                ns.len() == indexed@.len(),
                graph_wf(ns, indexed@, edge_views(edges@)),
                kf == kept_flags(ns, indexed@, *p),
                pair_views(pairs@) == payload_var_texts(data@),
                values@.len() == pairs@.len(),
                forall|k: int|
                    0 <= k < ns.len() && indexed@[k] && proc_matches(#[trigger] ns[k], *p) ==> ns[k].version < u64::MAX,
                i <= ns.len(),
                count == i - count_true(kf.take(i as int)),
                forall|k: int| i <= k < ns.len() ==> #[trigger] nodes@[k] == ns[k],
                forall|k: int| 0 <= k < ns.len() ==> node_wf(#[trigger] nodes@[k]),
                forall|k: int| 0 <= k < ns.len() ==> (#[trigger] nodes@[k]).pattern_id == ns[k].pattern_id,
                forall|k: int|
                    0 <= k < i ==> {
                        let o = #[trigger] ns[k];
                        let n = nodes@[k];
                        if indexed@[k] && proc_matches(o, *p) {
                            updated_proc(o, n, data@, values@)
                        } else {
                            n == o
                        }
                    },
            decreases ns.len() - i,
        {
            proof {
                lemma_count_take(kf, i as int);
                lemma_count_mono(kf, i as int, i as int);
                assert(count_true(kf.take(i as int)) <= i) by {
                    lemma_count_le(kf.take(i as int));
                }
            }
            if indexed[i] && matches_predicate(&nodes[i], p) {
                let t = apply_update(&nodes[i], data, &pairs, &values);
                nodes.set(i, t);
                count = count + 1;
            }
            i = i + 1;
        }
        proof {
            assert(kf.take(ns.len() as int) =~= kf);
            let nn = nodes@;
            assert forall|a: int, b: int| 0 <= a < b < nn.len() && indexed@[a] && indexed@[b] implies nn[a].pattern_id@
                != nn[b].pattern_id@ by {
                assert(ns[a].pattern_id@ != ns[b].pattern_id@);
            }
        }
        *self = ProceduralBackend { nodes, indexed, edges, default_threshold, default_scope };
        count
    }
}

/// A count of set flags is at most the number of flags.
proof fn lemma_count_le(ks: Seq<bool>)
    ensures
        count_true(ks) <= ks.len(),
    decreases ks.len(),
{
    if ks.len() > 0 {
        lemma_count_le(ks.drop_last());
    }
}

/// Procedure `o` updated with a payload (see `updated_proc`).
fn apply_update(
    o: &ProcedureNode,
    data: &Json,
    pairs: &Vec<Option<(String, String)>>,
    values: &Vec<Option<u64>>,
) -> (r: ProcedureNode)
    requires
        node_wf(*o),
        o.version < u64::MAX,
        pair_views(pairs@) == payload_var_texts(data@),
        values@.len() == pairs@.len(),
    ensures
        updated_proc(*o, r, data@, values@),
        node_wf(r),
{
    proof {
        reveal_strlit("pattern");
        reveal_strlit("severity");
        reveal_strlit("source");
        reveal_strlit("confidence");
        reveal_strlit("success_count");
        reveal_strlit("failure_count");
        reveal_strlit("metadata");
    }
    let mut t = o.copy();
    match member_str(data, "pattern") {
        Some(x) => {
            t.pattern = owned(x);
        },
        None => {},
    }
    match member_str(data, "severity") {
        Some(x) => {
            t.severity = owned(x);
        },
        None => {},
    }
    match member_str(data, "source") {
        Some(x) => {
            t.source = owned(x);
        },
        None => {},
    }
    match member_single(data, "confidence") {
        Some(x) => {
            t.confidence = x;
        },
        None => {},
    }
    match steps_of(data) {
        Some(v) => {
            t.steps = v;
        },
        None => {},
    }
    match count_of(data, "success_count") {
        Some(c) => {
            t.success_count = c;
        },
        None => {},
    }
    match count_of(data, "failure_count") {
        Some(c) => {
            t.failure_count = c;
        },
        None => {},
    }
    apply_vars(&mut t.variables, data, pairs, values);
    match data.get("metadata") {
        Some(v) => {
            t.metadata = v.copy();
        },
        None => {},
    }
    t.version = t.version + 1;
    t
}

/// A PATTERN lookup ranks procedures by their Jaccard similarity to the
/// query: its results are the procedures at least as similar as the
/// threshold, in an order in which no result is less similar than one
/// after it, cut to the limit; so with a limit of `n` the `n` most similar
/// come back.
pub proof fn lemma_pattern_lookup_ranked(
    b: ProceduralBackend,
    pattern_var: String,
    threshold: Option<u32>,
    m: Modifiers,
    now: Timestamp,
)
    ensures
        ({
            let t = match threshold {
                Some(x) => x,
                None => b.threshold(),
            };
            let hits = pattern_hits(b.nodes(), strip_leading(pattern_var@, '$'), t, b.scope(), now);
            exists|ranked: Seq<(u32, RecordView)>|
                {
                    &&& ranked.to_multiset() == hits.to_multiset()
                    &&& forall|i: int, j: int| 0 <= i < j < ranked.len() ==> !f32_lt(#[trigger] ranked[i].0, #[trigger] ranked[j].0)
                    &&& procedural_lookup(b, Predicate::Pattern { pattern_var, threshold }, m, now) == #[trigger] unscored(
                        limited(ranked, m.limit),
                    )
                }
        }),
{
    let t = match threshold {
        Some(x) => x,
        None => b.threshold(),
    };
    let q = strip_leading(pattern_var@, '$');
    let keep = |n: ProcedureNode| f32_ge(jaccard(q, n.pattern@), t);
    let hits = pattern_hits(b.nodes(), q, t, b.scope(), now);
    assert forall|i: int| 0 <= i < hits.len() implies !f32_is_nan(#[trigger] hits[i].0) by {
        lemma_filter_member(b.nodes(), keep, i);
    }
    crate::order::lemma_ranked_by_score(hits);
    let ranked = sort_stable(hits, score_gt());
    assert(procedural_lookup(b, Predicate::Pattern { pattern_var, threshold }, m, now) == unscored(limited(ranked, m.limit)));
}

} // verus!

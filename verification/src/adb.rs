//! The memory database: the five memory kinds and the link store behind
//! one interface.
use vstd::prelude::*;
use crate::config::AdbConfig;
use crate::episodic::{episodic_lookup, episodic_matches, episodic_stored, EpisodicBackend};
use crate::error::AdbError;
use crate::json::Json;
use crate::link::{Link, LinkPredicate};
use crate::links::{id_index, links_from, links_to, opt_str_view, LinkStore};
use crate::memory::{MemoryRecord, MemoryType, MetadataView, RecordView};
use crate::order::record_views;
use crate::predicate::{Modifiers, Predicate, Window};
use crate::procedural::{procedural_lookup, ProceduralBackend};
use crate::scope::Scope;
use crate::semantic::{semantic_lookup, semantic_recall, SemanticBackend};
use crate::time::{clock_now, Timestamp, Ttl};
use crate::tools::{tools_lookup, ToolsBackend};
use crate::working::{working_lookup, working_scan, with_record, WorkingBackend, WorkingView};

verus! {

/// The record a store makes: key, kind, payload, created and read at
/// `now`, version 1, with the given scope, namespace and time to live.
pub open spec fn new_record(
    key: Seq<char>,
    t: MemoryType,
    data: crate::json::JsonView,
    scope: Scope,
    namespace: Option<Seq<char>>,
    ttl: Option<Ttl>,
    now: Timestamp,
) -> RecordView {
    RecordView {
        id: key,
        memory_type: t,
        data,
        meta: MetadataView { created_at: now, accessed_at: now, scope, namespace, ttl, version: 1 },
    }
}

/// The memory database.
pub struct Adb {
    config: AdbConfig,
    working: WorkingBackend,
    tools: ToolsBackend,
    procedural: ProceduralBackend,
    semantic: SemanticBackend,
    episodic: EpisodicBackend,
    links: LinkStore,
}

/// The records a lookup in memory kind `t` returns at instant `now`.
pub open spec fn adb_lookup(a: Adb, t: MemoryType, p: Predicate, m: Modifiers, now: Timestamp) -> Seq<RecordView> {
    match t {
        MemoryType::Working => working_lookup(a.working_backend()@.records, p, m, now),
        MemoryType::Tools => tools_lookup(a.tools_backend(), p, m, now),
        MemoryType::Procedural => procedural_lookup(a.procedural_backend(), p, m, now),
        MemoryType::Semantic => semantic_lookup(a.semantic_backend().records(), p, m),
        MemoryType::Episodic => episodic_lookup(a.episodic_backend()@.records, p, m, now),
    }
}

/// The records a recall in memory kind `t` returns at instant `now`: a
/// lookup, except that semantic memory recalls by embedding.
pub open spec fn adb_recall(a: Adb, t: MemoryType, p: Predicate, m: Modifiers, now: Timestamp) -> Seq<RecordView> {
    match t {
        MemoryType::Semantic => semantic_recall(a.semantic_backend().records(), a.semantic_backend().embedded(), p, m),
        _ => adb_lookup(a, t, p, m, now),
    }
}

/// The number of records of memory kind `t`.
pub open spec fn adb_count(a: Adb, t: MemoryType) -> nat {
    match t {
        MemoryType::Working => a.working_backend()@.records.len(),
        MemoryType::Tools => a.tools_backend().tools().len(),
        MemoryType::Procedural => a.procedural_backend().nodes().len(),
        MemoryType::Semantic => a.semantic_backend().records().len(),
        MemoryType::Episodic => a.episodic_backend()@.records.len(),
    }
}

/// Whether `b` is `a` with at most the backend of kind `t` changed.
pub open spec fn others_unchanged(a: Adb, b: Adb, t: MemoryType) -> bool {
    &&& b.settings() == a.settings()
    &&& t != MemoryType::Working ==> b.working_backend() == a.working_backend()
    &&& t != MemoryType::Tools ==> b.tools_backend() == a.tools_backend()
    &&& t != MemoryType::Procedural ==> b.procedural_backend() == a.procedural_backend()
    &&& t != MemoryType::Semantic ==> b.semantic_backend() == a.semantic_backend()
    &&& t != MemoryType::Episodic ==> b.episodic_backend() == a.episodic_backend()
    &&& b.link_backend() == a.link_backend()
}

/// Whether `b` is `a` after storing `data` under `key` in memory kind `t`
/// at instant `now`, with record `r` made (a variables text of a procedure
/// read with `parse`).
pub open spec fn stored<F: Fn(String) -> Option<u64>>(
    a: Adb,
    b: Adb,
    t: MemoryType,
    key: Seq<char>,
    data: crate::json::JsonView,
    scope: Scope,
    namespace: Option<Seq<char>>,
    ttl: Option<Ttl>,
    parse: F,
    now: Timestamp,
    r: RecordView,
) -> bool {
    &&& others_unchanged(a, b, t)
    &&& match t {
                MemoryType::Working => {
                    &&& r == new_record(key, t, data, scope, namespace, ttl, now)
                    &&& b.working_backend()@ == (WorkingView {
                        records: with_record(a.working_backend()@.records, r),
                        ..a.working_backend()@
                    })
                },
                MemoryType::Episodic => {
                    &&& r == new_record(key, t, data, scope, namespace, ttl, now)
                    &&& b.episodic_backend()@.records == episodic_stored(
                        a.episodic_backend()@.records,
                        r,
                    )
                },
                MemoryType::Semantic => {
                    &&& r == new_record(key, t, data, scope, namespace, ttl, now)
                    &&& b.semantic_backend().records() == with_record(
                        a.semantic_backend().records(),
                        r,
                    )
                    &&& b.semantic_backend().embedded() == a.semantic_backend().embedded()
                    &&& b.semantic_backend().index_ids() == a.semantic_backend().index_ids()
                },
                MemoryType::Tools => exists|x: crate::tools::ToolRecord|
                    crate::tools::payload_tool(x, key, data) && r == crate::tools::tool_record(
                        x,
                        a.tools_backend().scope(),
                        now,
                    ) && b.tools_backend().tools() == crate::tools::registered(
                        a.tools_backend().tools(),
                        x,
                    ),
                MemoryType::Procedural => exists|x: crate::procedural::ProcedureNode, values: Seq<Option<u64>>|
                    {
                        &&& crate::procedural::parsed_values(
                            parse,
                            crate::procedural::payload_var_texts(data),
                            values,
                        )
                        &&& crate::procedural::stored_proc(x, key, data, values)
                        &&& r == crate::procedural::proc_record(x, a.procedural_backend().scope(), now)
                        &&& b.procedural_backend().nodes() == a.procedural_backend().nodes().push(x)
                    },
            }
}

/// Whether `b` is `a` after forgetting the records of memory kind `t`
/// satisfying `p`, `n` of them.
pub open spec fn forgot(a: Adb, b: Adb, t: MemoryType, p: Predicate, n: u64) -> bool {
    &&& others_unchanged(a, b, t)
    &&& n == adb_count(a, t) - adb_count(b, t)
    &&& match t {
        MemoryType::Working => b.working_backend()@.records == crate::working::kept_after_forget(
            a.working_backend()@.records,
            p,
        ),
        MemoryType::Tools => b.tools_backend().tools() == a.tools_backend().tools().filter(
            |x: crate::tools::ToolRecord| !crate::tools::tool_matches(x, p),
        ),
        MemoryType::Procedural => b.procedural_backend().nodes() == crate::procedural::select(
            a.procedural_backend().nodes(),
            crate::procedural::kept_flags(
                a.procedural_backend().nodes(),
                a.procedural_backend().indexed(),
                p,
            ),
        ),
        MemoryType::Semantic => b.semantic_backend().records() == a.semantic_backend().records().filter(|x: RecordView| !crate::semantic::semantic_matches(x, p)),
        MemoryType::Episodic => b.episodic_backend()@.records == a.episodic_backend()@.records.filter(
            |x: RecordView| !episodic_matches(x, p),
        ),
    }
}

/// Whether `b` is `a` after updating the records of memory kind `t`
/// satisfying `p` with `data` at instant `now` (variables texts of
/// procedures read with `parse`), with outcome `r`.
pub open spec fn update_done<F: Fn(String) -> Option<u64>>(
    a: Adb,
    b: Adb,
    t: MemoryType,
    p: Predicate,
    data: crate::json::JsonView,
    parse: F,
    now: Timestamp,
    r: Result<u64, AdbError>,
) -> bool {
    &&& others_unchanged(a, b, t)
    &&& r is Err ==> b == a
    &&& r matches Ok(n) ==> match t {
        MemoryType::Working => b.working_backend()@.records == crate::working::working_updated(
            a.working_backend()@.records,
            p,
            data,
            now,
        ) && n == crate::working::live_matching(a.working_backend()@.records, p, now).len(),
        MemoryType::Episodic => b.episodic_backend()@.records == crate::episodic::episodic_after_update(
            a.episodic_backend()@.records,
            p,
            data,
            now,
        ) && n == a.episodic_backend()@.records.filter(|x: RecordView| episodic_matches(x, p)).len(),
        MemoryType::Semantic => b.semantic_backend().records() == a.semantic_backend().records().map_values(
            |x: RecordView|
                if crate::semantic::semantic_matches(x, p) {
                    crate::semantic::semantic_updated(x, data, now)
                } else {
                    x
                },
        ) && n == a.semantic_backend().records().filter(
            |x: RecordView| crate::semantic::semantic_matches(x, p),
        ).len(),
        MemoryType::Tools => n == a.tools_backend().tools().filter(
            |x: crate::tools::ToolRecord| crate::tools::tool_matches(x, p),
        ).len() && b.tools_backend().tools().len() == a.tools_backend().tools().len()
            && forall|i: int|
            0 <= i < a.tools_backend().tools().len() ==> {
                let o = #[trigger] a.tools_backend().tools()[i];
                let x = b.tools_backend().tools()[i];
                if crate::tools::tool_matches(o, p) {
                    crate::tools::updated_tool(o, x, data)
                } else {
                    x == o
                }
            },
        MemoryType::Procedural => n == a.procedural_backend().nodes().len() - crate::procedural::count_true(
            crate::procedural::kept_flags(
                a.procedural_backend().nodes(),
                a.procedural_backend().indexed(),
                p,
            ),
        ) && exists|values: Seq<Option<u64>>|
            {
                &&& crate::procedural::parsed_values(
                    parse,
                    crate::procedural::payload_var_texts(data),
                    values,
                )
                &&& forall|i: int|
                    0 <= i < a.procedural_backend().nodes().len() ==> {
                        let o = #[trigger] a.procedural_backend().nodes()[i];
                        let x = b.procedural_backend().nodes()[i];
                        if a.procedural_backend().indexed()[i] && crate::procedural::proc_matches(o, p) {
                            crate::procedural::updated_proc(o, x, data, values)
                        } else {
                            x == o
                        }
                    }
            },
    }
    &&& r is Err <==> !(match t {
        MemoryType::Working => forall|i: int|
            0 <= i < a.working_backend()@.records.len() && crate::working::working_matches(
                #[trigger] a.working_backend()@.records[i],
                p,
            ) ==> a.working_backend()@.records[i].meta.version < u64::MAX,
        MemoryType::Episodic => forall|i: int|
            0 <= i < a.episodic_backend()@.records.len() && crate::episodic::episodic_matches(
                #[trigger] a.episodic_backend()@.records[i],
                p,
            ) ==> a.episodic_backend()@.records[i].meta.version < u64::MAX,
        MemoryType::Procedural => forall|i: int|
            0 <= i < a.procedural_backend().nodes().len() && 0 <= i < a.procedural_backend().indexed().len() && a.procedural_backend().indexed()[i]
                && crate::procedural::proc_matches(#[trigger] a.procedural_backend().nodes()[i], p)
                ==> a.procedural_backend().nodes()[i].version < u64::MAX,
        MemoryType::Semantic => forall|i: int|
            0 <= i < a.semantic_backend().records().len() && crate::semantic::semantic_matches(
                #[trigger] a.semantic_backend().records()[i],
                p,
            ) ==> a.semantic_backend().records()[i].meta.version < u64::MAX,
        MemoryType::Tools => true,
    })
}

impl Adb {
    /// The settings.
    pub closed spec fn settings(self) -> AdbConfig {
        self.config
    }

    /// Working memory.
    pub closed spec fn working_backend(self) -> WorkingBackend {
        self.working
    }

    /// The tool registry.
    pub closed spec fn tools_backend(self) -> ToolsBackend {
        self.tools
    }

    /// Procedural memory.
    pub closed spec fn procedural_backend(self) -> ProceduralBackend {
        self.procedural
    }

    /// Semantic memory.
    pub closed spec fn semantic_backend(self) -> SemanticBackend {
        self.semantic
    }

    /// Episodic memory.
    pub closed spec fn episodic_backend(self) -> EpisodicBackend {
        self.episodic
    }

    /// The links.
    pub closed spec fn link_backend(self) -> LinkStore {
        self.links
    }

    /// A database with the default settings.
    pub fn new() -> (r: Adb)
        ensures
            crate::config::default_config(r.settings()),
            r.working_backend()@.records.len() == 0,
            r.tools_backend().tools().len() == 0,
            r.procedural_backend().nodes().len() == 0,
            r.semantic_backend().records().len() == 0,
            r.episodic_backend()@.records.len() == 0,
            r.link_backend()@.links.len() == 0,
    {
        Adb::with_config(AdbConfig::default())
    }

    /// A database with the given settings: expiry of working memory, the
    /// decay of tool rankings and the pattern threshold from them.
    pub fn with_config(config: AdbConfig) -> (r: Adb)
        ensures
            r.settings() == config,
            r.working_backend()@.records.len() == 0,
            r.working_backend()@.ttl_enabled == config.working.ttl_enabled,
            r.tools_backend().tools().len() == 0,
            r.tools_backend().decay() == crate::float::f32_unit_clamp(config.tools.decay_factor),
            r.procedural_backend().nodes().len() == 0,
            r.procedural_backend().edges().len() == 0,
            r.procedural_backend().threshold() == crate::float::f32_unit_clamp(config.procedural.default_threshold),
            r.semantic_backend().records().len() == 0,
            r.episodic_backend()@.records.len() == 0,
            r.link_backend()@.links.len() == 0,
    {
        let mut working = WorkingBackend::new();
        working.set_ttl_enabled(config.working.ttl_enabled);
        let tools = ToolsBackend::with_decay_factor(config.tools.decay_factor);
        let procedural = ProceduralBackend::with_threshold(config.procedural.default_threshold);
        Adb {
            working,
            tools,
            procedural,
            semantic: SemanticBackend::new(),
            episodic: EpisodicBackend::new(),
            links: LinkStore::new(),
            config,
        }
    }

    /// The settings.
    pub fn config(&self) -> (r: &AdbConfig)
        ensures
            *r == self.settings(),
    {
        &self.config
    }

    /// Stores a record in memory kind `t` as of instant `now` (variables
    /// texts of procedures read with `parse`); returns the record made.
    pub fn store_with_options_at<F: Fn(String) -> Option<u64>>(
        &mut self,
        t: MemoryType,
        key: &str,
        data: Json,
        scope: Scope,
        namespace: Option<&str>,
        ttl: Option<Ttl>,
        parse: &F,
        now: Timestamp,
    ) -> (r: MemoryRecord)
        requires
            forall|s: String| call_requires(*parse, (s,)),
        ensures
            stored(*old(self), *final(self), t, key@, data@, scope, opt_str_view(namespace), ttl, *parse, now, r@),
    {
        match t {
            MemoryType::Working => self.working.store_at(key, data, scope, namespace, ttl, now),
            MemoryType::Tools => self.tools.store_at(key, data, scope, namespace, ttl, now),
            MemoryType::Procedural => self.procedural.store_at(key, data, scope, namespace, ttl, parse, now),
            MemoryType::Semantic => self.semantic.store_at(key, data, scope, namespace, ttl, now),
            MemoryType::Episodic => self.episodic.store_at(key, data, scope, namespace, ttl, now),
        }
    }

    /// The records a lookup in memory kind `t` returns at instant `now`
    /// (see `adb_lookup`).
    pub fn lookup_with_modifiers_at(&self, t: MemoryType, p: &Predicate, m: &Modifiers, now: Timestamp) -> (r: Vec<
        MemoryRecord,
    >)
        ensures
            record_views(r@) == adb_lookup(*self, t, *p, *m, now),
    {
        match t {
            MemoryType::Working => self.working.lookup_at(p, m, now),
            MemoryType::Tools => self.tools.lookup_at(p, m, now),
            MemoryType::Procedural => self.procedural.lookup_at(p, m, now),
            MemoryType::Semantic => self.semantic.lookup(p, m),
            MemoryType::Episodic => self.episodic.lookup_at(p, m, now),
        }
    }

    /// The records a lookup in memory kind `t` returns now.
    pub fn lookup_with_modifiers(&self, t: MemoryType, p: &Predicate, m: &Modifiers) -> (r: Vec<MemoryRecord>)
        ensures
            exists|now: Timestamp| now.wf() && record_views(r@) == adb_lookup(*self, t, *p, *m, now),
    {
        let now = clock_now();
        self.lookup_with_modifiers_at(t, p, m, now)
    }

    /// The records a lookup in memory kind `t` without modifiers returns
    /// now.
    pub fn lookup(&self, t: MemoryType, p: &Predicate) -> (r: Vec<MemoryRecord>)
        ensures
            exists|now: Timestamp, m: Modifiers|
                now.wf() && crate::predicate::no_modifiers(m) && record_views(r@) == adb_lookup(*self, t, *p, m, now),
    {
        let m = Modifiers::default();
        self.lookup_with_modifiers(t, p, &m)
    }

    /// The records a recall in memory kind `t` returns at instant `now`
    /// (see `adb_recall`).
    pub fn recall_with_modifiers_at(&self, t: MemoryType, p: &Predicate, m: &Modifiers, now: Timestamp) -> (r: Vec<
        MemoryRecord,
    >)
        ensures
            record_views(r@) == adb_recall(*self, t, *p, *m, now),
    {
        match t {
            MemoryType::Semantic => self.semantic.recall(p, m),
            _ => self.lookup_with_modifiers_at(t, p, m, now),
        }
    }

    /// The records a recall in memory kind `t` returns now.
    pub fn recall_with_modifiers(&self, t: MemoryType, p: &Predicate, m: &Modifiers) -> (r: Vec<MemoryRecord>)
        ensures
            exists|now: Timestamp| now.wf() && record_views(r@) == adb_recall(*self, t, *p, *m, now),
    {
        let now = clock_now();
        self.recall_with_modifiers_at(t, p, m, now)
    }

    /// The records a recall in memory kind `t` without modifiers returns
    /// now.
    pub fn recall(&self, t: MemoryType, p: &Predicate) -> (r: Vec<MemoryRecord>)
        ensures
            exists|now: Timestamp, m: Modifiers|
                now.wf() && crate::predicate::no_modifiers(m) && record_views(r@) == adb_recall(*self, t, *p, m, now),
    {
        let m = Modifiers::default();
        self.recall_with_modifiers(t, p, &m)
    }

    /// The live records of working memory at instant `now`, within a
    /// window when one is given.
    pub fn scan_at(&self, window: Option<&Window>, now: Timestamp) -> (r: Vec<MemoryRecord>)
        ensures
            record_views(r@) == working_scan(
                self.working_backend()@.records,
                match window {
                    Some(w) => Some(*w),
                    None => None,
                },
                now,
            ),
    {
        self.working.scan_at(window, now)
    }

    /// The live records of working memory now.
    pub fn scan(&self) -> (r: Vec<MemoryRecord>)
        ensures
            exists|now: Timestamp| now.wf() && record_views(r@) == working_scan(self.working_backend()@.records, None, now),
    {
        let now = clock_now();
        self.scan_at(None, now)
    }

    /// The live records of working memory within a window now.
    pub fn scan_window(&self, window: &Window) -> (r: Vec<MemoryRecord>)
        ensures
            exists|now: Timestamp|
                now.wf() && record_views(r@) == working_scan(self.working_backend()@.records, Some(*window), now),
    {
        let now = clock_now();
        self.scan_at(Some(window), now)
    }

    /// Loads at most `limit` tools satisfying `p` as of instant `now`,
    /// ranked (see `ToolsBackend::load_at`).
    pub fn load_at<W: Fn(u32, u32) -> u32>(&self, p: &Predicate, limit: usize, weigh: &W, now: Timestamp) -> (r: Vec<
        MemoryRecord,
    >)
        requires
            forall|a: u32, b: u32| call_requires(*weigh, (a, b)),
        ensures
            exists|scores: Seq<u32>|
                {
                    &&& #[trigger] crate::tools::load_scores(
                        *weigh,
                        crate::tools::matching_tools(self.tools_backend(), *p),
                        crate::tools::task_type_of(*p),
                        scores,
                    )
                    &&& record_views(r@) == crate::tools::ranked_records(
                        crate::tools::matching_tools(self.tools_backend(), *p),
                        scores,
                        limit,
                        self.tools_backend().scope(),
                        now,
                    )
                },
    {
        let m = Modifiers::with_limit(limit);
        assert(crate::tools::load_limit(m) == limit);
        let r = self.tools.load_at(p, &m, weigh, now);
        proof {
            let scores = choose|scores: Seq<u32>|
                {
                    &&& #[trigger] crate::tools::load_scores(
                        *weigh,
                        crate::tools::matching_tools(self.tools_backend(), *p),
                        crate::tools::task_type_of(*p),
                        scores,
                    )
                    &&& record_views(r@) == crate::tools::ranked_records(
                        crate::tools::matching_tools(self.tools_backend(), *p),
                        scores,
                        crate::tools::load_limit(m),
                        self.tools_backend().scope(),
                        now,
                    )
                };
            assert(crate::tools::load_scores(
                *weigh,
                crate::tools::matching_tools(self.tools_backend(), *p),
                crate::tools::task_type_of(*p),
                scores,
            ));
        }
        r
    }

    /// Removes the records of memory kind `t` satisfying `p`; returns how
    /// many.
    pub fn forget(&mut self, t: MemoryType, p: &Predicate) -> (r: u64)
        ensures
            forgot(*old(self), *final(self), t, *p, r),
    {
        match t {
            MemoryType::Working => self.working.forget(p),
            MemoryType::Tools => self.tools.forget(p),
            MemoryType::Procedural => self.procedural.forget(p),
            MemoryType::Semantic => self.semantic.forget(p),
            MemoryType::Episodic => self.episodic.forget(p),
        }
    }

    /// Whether an update of memory kind `t` with `p` can bump every version
    /// it would bump.
    pub fn can_update(&self, t: MemoryType, p: &Predicate) -> (r: bool)
        ensures
            r == match t {
                MemoryType::Working => forall|i: int|
                    0 <= i < self.working_backend()@.records.len() && crate::working::working_matches(
                        #[trigger] self.working_backend()@.records[i],
                        *p,
                    ) ==> self.working_backend()@.records[i].meta.version < u64::MAX,
                MemoryType::Episodic => forall|i: int|
                    0 <= i < self.episodic_backend()@.records.len() && crate::episodic::episodic_matches(
                        #[trigger] self.episodic_backend()@.records[i],
                        *p,
                    ) ==> self.episodic_backend()@.records[i].meta.version < u64::MAX,
                MemoryType::Procedural => forall|i: int|
                    0 <= i < self.procedural_backend().nodes().len() && 0 <= i < self.procedural_backend().indexed().len()
                        && self.procedural_backend().indexed()[i] && crate::procedural::proc_matches(
                        #[trigger] self.procedural_backend().nodes()[i],
                        *p,
                    ) ==> self.procedural_backend().nodes()[i].version < u64::MAX,
                MemoryType::Semantic => forall|i: int|
                    0 <= i < self.semantic_backend().records().len() && crate::semantic::semantic_matches(
                        #[trigger] self.semantic_backend().records()[i],
                        *p,
                    ) ==> self.semantic_backend().records()[i].meta.version < u64::MAX,
                MemoryType::Tools => true,
            },
    {
        match t {
            MemoryType::Working => self.working.can_update(p),
            MemoryType::Episodic => self.episodic.can_update(p),
            MemoryType::Procedural => self.procedural.can_update(p),
            MemoryType::Semantic => self.semantic.can_update(p),
            MemoryType::Tools => true,
        }
    }

    /// Updates the records of memory kind `t` satisfying `p` with `data` as
    /// of instant `now` (variables texts of procedures read with `parse`);
    /// returns how many.  Fails, changing nothing, when a version it would
    /// bump is at its limit.
    pub fn update_at<F: Fn(String) -> Option<u64>>(
        &mut self,
        t: MemoryType,
        p: &Predicate,
        data: &Json,
        parse: &F,
        now: Timestamp,
    ) -> (r: Result<u64, AdbError>)
        requires
            forall|s: String| call_requires(*parse, (s,)),
        ensures
            update_done(*old(self), *final(self), t, *p, data@, *parse, now, r),
    {
        if !self.can_update(t, p) {
            return Err(AdbError::Internal(crate::text::owned("a record's version cannot be bumped further")));
        }
        let n = match t {
            MemoryType::Working => self.working.update_at(p, data, now),
            MemoryType::Tools => self.tools.update(p, data),
            MemoryType::Procedural => self.procedural.update(p, data, parse),
            MemoryType::Semantic => self.semantic.update_at(p, data, now),
            MemoryType::Episodic => self.episodic.update_at(p, data, now),
        };
        Ok(n)
    }
}


impl Adb {
    /// Stores a record in memory kind `t` now (see `store_with_options_at`).
    pub fn store_with_options<F: Fn(String) -> Option<u64>>(
        &mut self,
        t: MemoryType,
        key: &str,
        data: Json,
        scope: Scope,
        namespace: Option<&str>,
        ttl: Option<Ttl>,
        parse: &F,
    ) -> (r: MemoryRecord)
        requires
            forall|s: String| call_requires(*parse, (s,)),
        ensures
            exists|now: Timestamp|
                now.wf() && stored(*old(self), *final(self), t, key@, data@, scope, opt_str_view(namespace), ttl, *parse, now, r@),
    {
        let now = clock_now();
        self.store_with_options_at(t, key, data, scope, namespace, ttl, parse, now)
    }

    /// Stores a record in memory kind `t` now, in the default scope.
    pub fn store<F: Fn(String) -> Option<u64>>(&mut self, t: MemoryType, key: &str, data: Json, parse: &F) -> (r: MemoryRecord)
        requires
            forall|s: String| call_requires(*parse, (s,)),
        ensures
            exists|now: Timestamp|
                now.wf() && stored(
                    *old(self),
                    *final(self),
                    t,
                    key@,
                    data@,
                    old(self).settings().default_scope,
                    None,
                    None,
                    *parse,
                    now,
                    r@,
                ),
    {
        let scope = self.config.default_scope;
        self.store_with_options(t, key, data, scope, None, None, parse)
    }

    /// Updates the records of memory kind `t` satisfying `p` with `data`
    /// now (see `update_at`).
    pub fn update<F: Fn(String) -> Option<u64>>(&mut self, t: MemoryType, p: &Predicate, data: &Json, parse: &F) -> (r:
        Result<u64, AdbError>)
        requires
            forall|s: String| call_requires(*parse, (s,)),
        ensures
            exists|now: Timestamp| now.wf() && update_done(*old(self), *final(self), t, *p, data@, *parse, now, r),
    {
        let now = clock_now();
        self.update_at(t, p, data, parse, now)
    }

    /// Loads at most `limit` tools satisfying `p` now (see `load_at`).
    pub fn load<W: Fn(u32, u32) -> u32>(&self, p: &Predicate, limit: usize, weigh: &W) -> (r: Vec<MemoryRecord>)
        requires
            forall|a: u32, b: u32| call_requires(*weigh, (a, b)),
        ensures
            r@.len() <= limit,
            exists|now: Timestamp, scores: Seq<u32>|
                {
                    &&& now.wf()
                    &&& crate::tools::load_scores(
                        *weigh,
                        crate::tools::matching_tools(self.tools_backend(), *p),
                        crate::tools::task_type_of(*p),
                        scores,
                    )
                    &&& record_views(r@) == #[trigger] crate::tools::ranked_records(
                        crate::tools::matching_tools(self.tools_backend(), *p),
                        scores,
                        limit,
                        self.tools_backend().scope(),
                        now,
                    )
                },
    {
        let now = clock_now();
        let r = self.load_at(p, limit, weigh, now);
        proof {
            let scores = choose|scores: Seq<u32>|
                {
                    &&& #[trigger] crate::tools::load_scores(
                        *weigh,
                        crate::tools::matching_tools(self.tools_backend(), *p),
                        crate::tools::task_type_of(*p),
                        scores,
                    )
                    &&& record_views(r@) == crate::tools::ranked_records(
                        crate::tools::matching_tools(self.tools_backend(), *p),
                        scores,
                        limit,
                        self.tools_backend().scope(),
                        now,
                    )
                };
            assert(record_views(r@).len() == r@.len());
            assert(record_views(r@) == crate::tools::ranked_records(
                crate::tools::matching_tools(self.tools_backend(), *p),
                scores,
                limit,
                self.tools_backend().scope(),
                now,
            ));
        }
        r
    }

    /// Makes a link between two records (the weight clamped to [0, 1]).
    pub fn link(
        &mut self,
        from_type: MemoryType,
        from_id: &str,
        to_type: MemoryType,
        to_id: &str,
        link_type: &str,
        weight: u32,
    ) -> (r: Link)
        ensures
            r@ == (crate::link::LinkView {
                id: r.id@,
                from_type,
                from_id: from_id@,
                to_type,
                to_id: to_id@,
                link_type: link_type@,
                weight: crate::float::f32_unit_clamp(weight),
                created_at: r.created_at,
                updated_at: r.created_at,
            }),
            match id_index(old(self).link_backend()@.links, r@.id) {
                Some(i) => final(self).link_backend()@.links == old(self).link_backend()@.links.update(i, r@),
                None => final(self).link_backend()@.links == old(self).link_backend()@.links.push(r@),
            },
            final(self).working_backend() == old(self).working_backend(),
            final(self).tools_backend() == old(self).tools_backend(),
            final(self).procedural_backend() == old(self).procedural_backend(),
            final(self).semantic_backend() == old(self).semantic_backend(),
            final(self).episodic_backend() == old(self).episodic_backend(),
            final(self).settings() == old(self).settings(),
    {
        self.links.link(from_type, from_id, to_type, to_id, link_type, weight)
    }

    /// The links from a record, of a type when one is given.
    pub fn get_links_from(&self, from_type: MemoryType, from_id: &str, link_type: Option<&str>) -> (r: Vec<Link>)
        ensures
            crate::links::link_views(r@) == links_from(self.link_backend()@.links, from_type, from_id@, opt_str_view(link_type)),
    {
        self.links.get_links_from(from_type, from_id, link_type)
    }

    /// The links to a record, of a type when one is given.
    pub fn get_links_to(&self, to_type: MemoryType, to_id: &str, link_type: Option<&str>) -> (r: Vec<Link>)
        ensures
            crate::links::link_views(r@) == links_to(self.link_backend()@.links, to_type, to_id@, opt_str_view(link_type)),
    {
        self.links.get_links_to(to_type, to_id, link_type)
    }

    /// The links satisfying a link predicate.
    pub fn get_links(&self, predicate: &LinkPredicate) -> (r: Vec<Link>)
        ensures
            crate::links::link_views(r@) == self.link_backend()@.links.filter(
                |l: crate::link::LinkView| crate::link::link_matches(predicate@, l),
            ),
    {
        self.links.get_links(predicate)
    }

    /// The link with a key, if any.
    pub fn get_link(&self, link_id: &str) -> (r: Option<Link>)
        ensures
            match id_index(self.link_backend()@.links, link_id@) {
                Some(i) => r matches Some(l) && l@ == self.link_backend()@.links[i],
                None => r is None,
            },
    {
        self.links.get_link(link_id)
    }

    /// Sets the weight of a link (clamped to [0, 1]); nothing happens when
    /// no link has the key.
    pub fn update_link_weight(&mut self, link_id: &str, weight: u32)
        ensures
            match id_index(old(self).link_backend()@.links, link_id@) {
                Some(i) => final(self).link_backend()@.links == old(self).link_backend()@.links.update(
                    i,
                    crate::link::LinkView {
                        weight: crate::float::f32_unit_clamp(weight),
                        updated_at: final(self).link_backend()@.links[i].updated_at,
                        ..old(self).link_backend()@.links[i]
                    },
                ),
                None => final(self).link_backend()@.links == old(self).link_backend()@.links,
            },
            final(self).working_backend() == old(self).working_backend(),
            final(self).tools_backend() == old(self).tools_backend(),
            final(self).procedural_backend() == old(self).procedural_backend(),
            final(self).semantic_backend() == old(self).semantic_backend(),
            final(self).episodic_backend() == old(self).episodic_backend(),
            final(self).settings() == old(self).settings(),
    {
        self.links.update_weight(link_id, weight)
    }

    /// Moves the weight of a link toward a success signal as of now (see
    /// `Link::update_weight`); nothing happens when no link has the key.
    pub fn update_link_with_signal<B: Fn(u32, u32, u32) -> u32>(
        &mut self,
        link_id: &str,
        signal: u32,
        decay: u32,
        blend: &B,
    )
        requires
            forall|w: u32, s: u32, d: u32| call_requires(*blend, (w, s, d)),
        ensures
            match id_index(old(self).link_backend()@.links, link_id@) {
                Some(i) => exists|b: u32|
                    {
                        &&& #[trigger] call_ensures(
                            *blend,
                            (
                                old(self).link_backend()@.links[i].weight,
                                crate::float::f32_unit_clamp(signal),
                                crate::float::f32_unit_clamp(decay),
                            ),
                            b,
                        )
                        &&& final(self).link_backend()@.links == old(self).link_backend()@.links.update(
                            i,
                            crate::link::LinkView {
                                weight: crate::float::f32_unit_clamp(b),
                                updated_at: final(self).link_backend()@.links[i].updated_at,
                                ..old(self).link_backend()@.links[i]
                            },
                        )
                    },
                None => final(self).link_backend()@.links == old(self).link_backend()@.links,
            },
            final(self).working_backend() == old(self).working_backend(),
            final(self).tools_backend() == old(self).tools_backend(),
            final(self).procedural_backend() == old(self).procedural_backend(),
            final(self).semantic_backend() == old(self).semantic_backend(),
            final(self).episodic_backend() == old(self).episodic_backend(),
            final(self).settings() == old(self).settings(),
    {
        self.links.update_weight_with_signal(link_id, signal, decay, blend)
    }

    /// Removes the links satisfying a link predicate; returns how many.
    pub fn forget_links(&mut self, predicate: &LinkPredicate) -> (r: u64)
        ensures
            final(self).link_backend()@.links == old(self).link_backend()@.links.filter(
                |l: crate::link::LinkView| !crate::link::link_matches(predicate@, l),
            ),
            r == old(self).link_backend()@.links.filter(
                |l: crate::link::LinkView| crate::link::link_matches(predicate@, l),
            ).len(),
            final(self).working_backend() == old(self).working_backend(),
            final(self).tools_backend() == old(self).tools_backend(),
            final(self).procedural_backend() == old(self).procedural_backend(),
            final(self).semantic_backend() == old(self).semantic_backend(),
            final(self).episodic_backend() == old(self).episodic_backend(),
            final(self).settings() == old(self).settings(),
    {
        self.links.forget_links(predicate)
    }

    /// The number of records of memory kind `t`.
    pub fn count(&self, t: MemoryType) -> (r: usize)
        ensures
            r == adb_count(*self, t),
    {
        match t {
            MemoryType::Working => self.working.count(),
            MemoryType::Tools => self.tools.count(),
            MemoryType::Procedural => self.procedural.count(),
            MemoryType::Semantic => self.semantic.count(),
            MemoryType::Episodic => self.episodic.count(),
        }
    }

    /// The number of links.
    pub fn link_count(&self) -> (r: usize)
        ensures
            r == self.link_backend()@.links.len(),
    {
        self.links.count()
    }

    /// Removes every record of memory kind `t`.
    pub fn clear(&mut self, t: MemoryType)
        ensures
            adb_count(*final(self), t) == 0,
            others_unchanged(*old(self), *final(self), t),
    {
        match t {
            MemoryType::Working => self.working.clear(),
            MemoryType::Tools => self.tools.clear(),
            MemoryType::Procedural => self.procedural.clear(),
            MemoryType::Semantic => self.semantic.clear(),
            MemoryType::Episodic => self.episodic.clear(),
        }
    }

    /// Removes every record of every kind and every link.
    pub fn clear_all(&mut self)
        ensures
            adb_count(*final(self), MemoryType::Working) == 0,
            adb_count(*final(self), MemoryType::Tools) == 0,
            adb_count(*final(self), MemoryType::Procedural) == 0,
            adb_count(*final(self), MemoryType::Semantic) == 0,
            adb_count(*final(self), MemoryType::Episodic) == 0,
            final(self).link_backend()@.links.len() == 0,
            final(self).settings() == old(self).settings(),
    {
        self.working.clear();
        self.tools.clear();
        self.procedural.clear();
        self.semantic.clear();
        self.episodic.clear();
        self.links.clear();
    }

    /// Working memory.
    pub fn working(&self) -> (r: &WorkingBackend)
        ensures
            *r == self.working_backend(),
    {
        &self.working
    }

    /// The tool registry.
    pub fn tools(&self) -> (r: &ToolsBackend)
        ensures
            *r == self.tools_backend(),
    {
        &self.tools
    }

    /// Procedural memory.
    pub fn procedural(&self) -> (r: &ProceduralBackend)
        ensures
            *r == self.procedural_backend(),
    {
        &self.procedural
    }

    /// Semantic memory.
    pub fn semantic(&self) -> (r: &SemanticBackend)
        ensures
            *r == self.semantic_backend(),
    {
        &self.semantic
    }

    /// Episodic memory.
    pub fn episodic(&self) -> (r: &EpisodicBackend)
        ensures
            *r == self.episodic_backend(),
    {
        &self.episodic
    }

    /// The link store.
    pub fn link_store(&self) -> (r: &LinkStore)
        ensures
            *r == self.link_backend(),
    {
        &self.links
    }

    /// Working memory, for changes.
    pub fn working_mut(&mut self) -> (r: &mut WorkingBackend)
        ensures
            *r == old(self).working_backend(),
            final(self).working_backend() == *final(r),
            others_unchanged(*old(self), *final(self), MemoryType::Working),
    {
        &mut self.working
    }

    /// The tool registry, for changes.
    pub fn tools_mut(&mut self) -> (r: &mut ToolsBackend)
        ensures
            *r == old(self).tools_backend(),
            final(self).tools_backend() == *final(r),
            others_unchanged(*old(self), *final(self), MemoryType::Tools),
    {
        &mut self.tools
    }

    /// Procedural memory, for changes.
    pub fn procedural_mut(&mut self) -> (r: &mut ProceduralBackend)
        ensures
            *r == old(self).procedural_backend(),
            final(self).procedural_backend() == *final(r),
            others_unchanged(*old(self), *final(self), MemoryType::Procedural),
    {
        &mut self.procedural
    }

    /// Semantic memory, for changes.
    pub fn semantic_mut(&mut self) -> (r: &mut SemanticBackend)
        ensures
            *r == old(self).semantic_backend(),
            final(self).semantic_backend() == *final(r),
            others_unchanged(*old(self), *final(self), MemoryType::Semantic),
    {
        &mut self.semantic
    }

    /// Episodic memory, for changes.
    pub fn episodic_mut(&mut self) -> (r: &mut EpisodicBackend)
        ensures
            *r == old(self).episodic_backend(),
            final(self).episodic_backend() == *final(r),
            others_unchanged(*old(self), *final(self), MemoryType::Episodic),
    {
        &mut self.episodic
    }
}

impl Default for Adb {
    fn default() -> (r: Adb)
        ensures
            crate::config::default_config(r.settings()),
            r.working_backend()@.records.len() == 0,
            r.link_backend()@.links.len() == 0,
    {
        Adb::new()
    }
}


// ---------------------------------------------------------------------------
// Laws
// ---------------------------------------------------------------------------

/// What is stored in working memory under a key is what a direct lookup
/// of that key then finds, and only it, whatever the modifiers and the
/// instant.
pub proof fn lemma_store_then_lookup_working<F: Fn(String) -> Option<u64>>(
    a: Adb,
    b: Adb,
    key: Seq<char>,
    data: crate::json::JsonView,
    scope: Scope,
    namespace: Option<Seq<char>>,
    ttl: Option<Ttl>,
    parse: F,
    now: Timestamp,
    r: RecordView,
    p: Predicate,
    m: Modifiers,
    later: Timestamp,
)
    requires
        crate::working::keys_unique(a.working_backend()@.records),
        stored(a, b, MemoryType::Working, key, data, scope, namespace, ttl, parse, now, r),
        crate::working::id_key(p) == Some(key),
    ensures
        adb_lookup(b, MemoryType::Working, p, m, later) == seq![r],
        r.data == data && r.meta.version == 1,
{
    crate::working::lemma_store_then_lookup(a.working_backend()@.records, r, m, p, later);
}

/// Storing in working memory adds a record for a new key and replaces the
/// record of a key already there; the other memory kinds and the links are
/// untouched.
pub proof fn lemma_store_count_working<F: Fn(String) -> Option<u64>>(
    a: Adb,
    b: Adb,
    key: Seq<char>,
    data: crate::json::JsonView,
    scope: Scope,
    namespace: Option<Seq<char>>,
    ttl: Option<Ttl>,
    parse: F,
    now: Timestamp,
    r: RecordView,
)
    requires
        stored(a, b, MemoryType::Working, key, data, scope, namespace, ttl, parse, now, r),
    ensures
        adb_count(b, MemoryType::Working) == adb_count(a, MemoryType::Working) + if crate::working::key_index(
            a.working_backend()@.records,
            key,
        ) is Some {
            0int
        } else {
            1int
        },
        adb_count(b, MemoryType::Episodic) == adb_count(a, MemoryType::Episodic),
        adb_count(b, MemoryType::Semantic) == adb_count(a, MemoryType::Semantic),
        adb_count(b, MemoryType::Tools) == adb_count(a, MemoryType::Tools),
        adb_count(b, MemoryType::Procedural) == adb_count(a, MemoryType::Procedural),
        b.link_backend() == a.link_backend(),
{
}

/// After a forget, no record left in working, episodic or semantic memory
/// or in the tool registry satisfies the predicate, every record that did
/// not satisfy it is left, and the count is the number of records that
/// satisfied it.
pub proof fn lemma_forget_removes_matching(a: Adb, b: Adb, t: MemoryType, p: Predicate, n: u64)
    requires
        forgot(a, b, t, p, n),
    ensures
        t == MemoryType::Working ==> {
            &&& forall|i: int|
                0 <= i < b.working_backend()@.records.len() ==> !crate::working::working_matches(
                    #[trigger] b.working_backend()@.records[i],
                    p,
                )
            &&& forall|i: int|
                0 <= i < a.working_backend()@.records.len() && !crate::working::working_matches(
                    a.working_backend()@.records[i],
                    p,
                ) ==> b.working_backend()@.records.contains(#[trigger] a.working_backend()@.records[i])
            &&& n == a.working_backend()@.records.filter(|x: RecordView| crate::working::working_matches(x, p)).len()
        },
        t == MemoryType::Episodic ==> {
            &&& forall|i: int|
                0 <= i < b.episodic_backend()@.records.len() ==> !episodic_matches(
                    #[trigger] b.episodic_backend()@.records[i],
                    p,
                )
            &&& n == a.episodic_backend()@.records.filter(|x: RecordView| episodic_matches(x, p)).len()
        },
        t == MemoryType::Semantic ==> forall|i: int|
            0 <= i < b.semantic_backend().records().len() ==> !crate::semantic::semantic_matches(
                #[trigger] b.semantic_backend().records()[i],
                p,
            ),
        t == MemoryType::Tools ==> forall|i: int|
            0 <= i < b.tools_backend().tools().len() ==> !crate::tools::tool_matches(
                #[trigger] b.tools_backend().tools()[i],
                p,
            ),
{
    broadcast use vstd::seq_lib::group_filter_ensures;

    if t == MemoryType::Working {
        let s = a.working_backend()@.records;
        crate::working::lemma_forget_removes(s, p);
        lemma_filter_split(
            s,
            |x: RecordView| crate::working::working_matches(x, p),
            |x: RecordView| !crate::working::working_matches(x, p),
        );
    } else if t == MemoryType::Episodic {
        let s = a.episodic_backend()@.records;
        lemma_filter_split(s, |x: RecordView| episodic_matches(x, p), |x: RecordView| !episodic_matches(x, p));
    }
}

/// A sequence splits into the elements that pass a test and those that
/// pass its negation.
pub proof fn lemma_filter_split<A>(s: Seq<A>, f: spec_fn(A) -> bool, g: spec_fn(A) -> bool)
    requires
        forall|x: A| #[trigger] g(x) == !f(x),
    ensures
        s.filter(f).len() + s.filter(g).len() == s.len(),
    decreases s.len(),
{
    if s.len() > 0 {
        let t = s.drop_last();
        lemma_filter_split(t, f, g);
        assert(s =~= t.push(s.last()));
        t.lemma_filter_push(s.last(), f);
        t.lemma_filter_push(s.last(), g);
        assert(g(s.last()) == !f(s.last()));
    } else {
        assert(s.filter(f) =~= Seq::<A>::empty());
        assert(s.filter(g) =~= Seq::<A>::empty());
    }
}

/// A link made is among the links from its source record, and carries
/// the ends, type and clamped weight it was made with.
pub proof fn lemma_link_then_links_from(a: Adb, b: Adb, l: crate::link::LinkView)
    requires
        match id_index(a.link_backend()@.links, l.id) {
            Some(i) => b.link_backend()@.links == a.link_backend()@.links.update(i, l),
            None => b.link_backend()@.links == a.link_backend()@.links.push(l),
        },
    ensures
        links_from(b.link_backend()@.links, l.from_type, l.from_id, None).contains(l),
        links_from(b.link_backend()@.links, l.from_type, l.from_id, Some(l.link_type)).contains(l),
        links_to(b.link_backend()@.links, l.to_type, l.to_id, None).contains(l),
{
    broadcast use vstd::seq_lib::group_filter_ensures;

    let s = b.link_backend()@.links;
    let i = match id_index(a.link_backend()@.links, l.id) {
        Some(i) => i,
        None => a.link_backend()@.links.len() as int,
    };
    assert(0 <= i < s.len() && s[i] == l);
    s.lemma_filter_contains(
        |x: crate::link::LinkView| crate::link::link_is_from(x, l.from_type, l.from_id) && crate::links::type_filter(None, x),
        i,
    );
    s.lemma_filter_contains(
        |x: crate::link::LinkView|
            crate::link::link_is_from(x, l.from_type, l.from_id) && crate::links::type_filter(Some(l.link_type), x),
        i,
    );
    s.lemma_filter_contains(
        |x: crate::link::LinkView| crate::link::link_is_to(x, l.to_type, l.to_id) && crate::links::type_filter(None, x),
        i,
    );
}

} // verus!

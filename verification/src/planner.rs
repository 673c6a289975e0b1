//! The planner: statements to execution plans.
use vstd::prelude::*;
use crate::ast::{
    AstMemoryType, FieldAssignment, ForgetStmt, LinkStmt, LoadStmt, LookupStmt, PipelineStmt,
    RecallStmt, ReflectSource, ReflectStmt, ScanStmt, Statement, StoreStmt, UpdateStmt,
};
use crate::float::F32_ONE;
use crate::json::{members_view, object_of, object_set, set_member, Json, JsonView};
use crate::link::{new_uuid, uuid_v4_text};
use crate::memory::{opt_view, MemoryType};
use crate::plan::{
    link_data_json, store_data_json, ExecutionPlan, FanOutPlan, LinkData, LinkOptions, Operation, PipelinePlan,
    PipelineStage, PlanError, ReflectPlan, ReflectSourcePlan, StepPlan, StoreData,
};
use crate::predicate::{
    no_modifiers, value_to_json, Condition, Modifiers, Predicate, PredicateView, Value, ValueView, WithLinks,
};
use crate::scope::Scope;
use crate::text::{copy_string, decimal, owned, push_char, str_eq};

verus! {

broadcast use vstd::string::group_string_axioms;

/// The memory kind a statement names, unless it names them all.
pub open spec fn target_type(t: AstMemoryType) -> Option<MemoryType> {
    match t {
        AstMemoryType::Working => Some(MemoryType::Working),
        AstMemoryType::Tools => Some(MemoryType::Tools),
        AstMemoryType::Procedural => Some(MemoryType::Procedural),
        AstMemoryType::Semantic => Some(MemoryType::Semantic),
        AstMemoryType::Episodic => Some(MemoryType::Episodic),
        AstMemoryType::All => None,
    }
}

/// Whether a statement runs on every memory kind (`RECALL FROM ALL`,
/// `FORGET FROM ALL`).
pub open spec fn fans_out(s: Statement) -> bool {
    match s {
        Statement::Recall(r) => r.memory_type == AstMemoryType::All,
        Statement::Forget(f) => f.memory_type == AstMemoryType::All,
        _ => false,
    }
}

/// Whether a statement can be planned: pipelines need stages, none of
/// which fans out and each of which can be planned; a REFLECT's follow-up
/// must be plannable; lookups, stores, updates and links need a single
/// memory kind.
pub open spec fn plannable(s: Statement) -> bool
    decreases s,
{
    match s {
        Statement::Pipeline(p) => p.stages@.len() > 0 && forall|i: int|
            0 <= i < p.stages@.len() ==> plannable(#[trigger] p.stages@[i]) && !fans_out(p.stages@[i]),
        Statement::Reflect(r) => match r.then_clause {
            Some(t) => plannable(*t),
            None => true,
        },
        Statement::Lookup(l) => l.memory_type != AstMemoryType::All,
        Statement::Store(x) => x.memory_type != AstMemoryType::All,
        Statement::Update(u) => u.memory_type != AstMemoryType::All,
        Statement::Link(l) => l.from_type != AstMemoryType::All && l.to_type != AstMemoryType::All,
        _ => true,
    }
}

/// Whether the `i`-th stage of a pipeline can be planned as a stage.
pub open spec fn stage_plannable(v: Seq<Statement>, i: int) -> bool {
    plannable(v[i]) && !fans_out(v[i])
}

/// The text a payload value gives a key: strings as they are, integers in
/// decimal, `true`, `false`, `null`, `$name` for variables, `array` for
/// lists.  Doubles have none here.
pub open spec fn key_text(v: ValueView) -> Option<Seq<char>> {
    match v {
        ValueView::String(s) => Some(s),
        ValueView::Int(i) => Some(crate::episodic::int_text(i as int)),
        ValueView::Bool(b) => Some(if b { "true"@ } else { "false"@ }),
        ValueView::Null => Some("null"@),
        ValueView::Variable(n) => Some(seq!['$'] + n),
        ValueView::Array(_) => Some("array"@),
        ValueView::Float(_) => None,
    }
}

/// The payload of assignments: each field set in turn to its value.
pub open spec fn assignments_json(a: Seq<FieldAssignment>) -> Seq<(Seq<char>, JsonView)>
    decreases a.len(),
{
    if a.len() == 0 {
        Seq::empty()
    } else {
        object_set(assignments_json(a.drop_last()), a.last().field@, value_to_json(a.last().value@))
    }
}

/// Position of the first assignment to `key` or `id`.
pub open spec fn key_assignment(a: Seq<FieldAssignment>) -> Option<int> {
    if exists|i: int| 0 <= i < a.len() && (a[i].field@ == "key"@ || a[i].field@ == "id"@) {
        Some(choose|i: int| 0 <= i < a.len() && (a[i].field@ == "key"@ || a[i].field@ == "id"@)
            && forall|j: int| 0 <= j < i ==> !(a[j].field@ == "key"@ || a[j].field@ == "id"@))
    } else {
        None
    }
}

// ---------------------------------------------------------------------------
// The plan of a statement
// ---------------------------------------------------------------------------

/// The error a statement naming `ALL` as its target gets.
pub open spec fn all_target_error(e: PlanError) -> bool {
    e matches PlanError::InvalidMemoryType(msg) && msg@ == "ALL cannot be used as target memory type"@
}

/// Whether `k` is the key a STORE with assignments `a` gives its record:
/// the text of the first `key` or `id` assignment, or a fresh version-4
/// UUID when there is none or its value has no text.
pub open spec fn store_key_ok(a: Seq<FieldAssignment>, k: Seq<char>) -> bool {
    match key_assignment(a) {
        Some(i) => match key_text(a[i].value@) {
            Some(t) => k == t,
            None => uuid_v4_text(k),
        },
        None => uuid_v4_text(k),
    }
}

/// Whether `d` is the record a STORE plans to store: its key (see
/// `store_key_ok`), the assignments as payload, the scope and namespace of
/// the modifiers or else the planner's defaults, and the modifiers' time
/// to live.
pub open spec fn store_data_planned(pl: Planner, x: StoreStmt, d: StoreData) -> bool {
    &&& store_key_ok(x.payload@, d.key@)
    &&& d.payload@ == JsonView::Object(assignments_json(x.payload@))
    &&& d.scope == match x.modifiers.scope {
        Some(s) => s,
        None => pl.scope(),
    }
    &&& opt_view(d.namespace) == match x.modifiers.namespace {
        Some(n) => Some(n@),
        None => pl.namespace(),
    }
    &&& d.ttl == x.modifiers.ttl
}

/// Whether `st` is the one step a statement other than a pipeline, a
/// REFLECT or a statement on every kind is planned as.
pub open spec fn step_planned(pl: Planner, s: Statement, st: StepPlan) -> bool {
    match s {
        Statement::Scan(x) => {
            &&& st.operation == Operation::Scan
            &&& st.memory_type == MemoryType::Working
            &&& st.predicate == Predicate::All
            &&& st.modifiers == (Modifiers { window: x.window, ..x.modifiers })
            &&& st.data is None
        },
        Statement::Recall(x) => target_type(x.memory_type) matches Some(t) && st == (StepPlan {
            operation: Operation::Recall,
            memory_type: t,
            predicate: x.predicate,
            modifiers: x.modifiers,
            data: None,
        }),
        Statement::Lookup(x) => target_type(x.memory_type) matches Some(t) && st == (StepPlan {
            operation: Operation::Lookup,
            memory_type: t,
            predicate: x.predicate,
            modifiers: x.modifiers,
            data: None,
        }),
        Statement::Load(x) => st == (StepPlan {
            operation: Operation::Load,
            memory_type: MemoryType::Tools,
            predicate: x.predicate,
            modifiers: x.modifiers,
            data: None,
        }),
        Statement::Store(x) => {
            &&& target_type(x.memory_type) matches Some(t)
            &&& st.operation == Operation::Store
            &&& st.memory_type == t
            &&& st.predicate == Predicate::All
            &&& st.modifiers == x.modifiers
            &&& exists|d: StoreData|
                st.data matches Some(j) && j@ == store_data_json(d) && #[trigger] store_data_planned(pl, x, d)
        },
        Statement::Update(x) => {
            &&& target_type(x.memory_type) matches Some(t)
            &&& st.operation == Operation::Update
            &&& st.memory_type == t
            &&& st.predicate == (Predicate::Where { conditions: x.conditions })
            &&& st.modifiers == x.modifiers
            &&& st.data matches Some(j) && j@ == JsonView::Object(assignments_json(x.payload@))
        },
        Statement::Forget(x) => target_type(x.memory_type) matches Some(t) && st == (StepPlan {
            operation: Operation::Forget,
            memory_type: t,
            predicate: Predicate::Where { conditions: x.conditions },
            modifiers: x.modifiers,
            data: None,
        }),
        Statement::Link(x) => {
            &&& target_type(x.from_type) matches Some(ft)
            &&& target_type(x.to_type) matches Some(tt)
            &&& st.operation == Operation::Link
            &&& st.memory_type == ft
            &&& st.predicate == (Predicate::Where { conditions: x.from_conditions })
            &&& no_modifiers(st.modifiers)
            &&& st.data matches Some(j) && j@ == link_data_json(
                LinkData {
                    from_type: ft,
                    from_predicate: Predicate::Where { conditions: x.from_conditions },
                    to_type: tt,
                    to_predicate: Predicate::Where { conditions: x.to_conditions },
                    link_type: x.link_type,
                    weight: match x.weight {
                        Some(w) => w,
                        None => F32_ONE,
                    },
                },
            )
        },
        _ => false,
    }
}

/// The predicate a REFLECT source is queried with: its own, or `ALL`.
pub open spec fn source_predicate(s: ReflectSource) -> PredicateView {
    match s.predicate {
        Some(p) => p@,
        None => PredicateView::All,
    }
}

/// The memory kinds in the order `MemoryType::all` gives them.
pub open spec fn every_kind() -> Seq<MemoryType> {
    seq![MemoryType::Working, MemoryType::Tools, MemoryType::Procedural, MemoryType::Semantic, MemoryType::Episodic]
}

/// What one REFLECT source becomes: one source for its kind, or, for
/// `ALL`, one for each kind in `MemoryType::all` order.
pub open spec fn source_plans(s: ReflectSource) -> Seq<(MemoryType, PredicateView)> {
    match target_type(s.memory_type) {
        Some(t) => seq![(t, source_predicate(s))],
        None => every_kind().map_values(|t: MemoryType| (t, source_predicate(s))),
    }
}

/// What the sources of a REFLECT become, in order.
pub open spec fn reflect_sources_of(v: Seq<ReflectSource>) -> Seq<(MemoryType, PredicateView)>
    decreases v.len(),
{
    if v.len() == 0 {
        Seq::empty()
    } else {
        reflect_sources_of(v.drop_last()) + source_plans(v.last())
    }
}

/// The kinds and predicates of planned REFLECT sources.
pub open spec fn source_plan_views(v: Seq<ReflectSourcePlan>) -> Seq<(MemoryType, PredicateView)> {
    v.map_values(|s: ReflectSourcePlan| (s.memory_type, s.predicate@))
}

/// Whether `lo` are the link options of a REFLECT: none without `WITH
/// LINKS` and `FOLLOW LINKS`; else whether each is there, the link type of
/// `WITH LINKS TYPE`, and the depth to follow (one unless given).
pub open spec fn link_options_planned(r: ReflectStmt, lo: Option<LinkOptions>) -> bool {
    if r.with_links is None && r.follow_links is None {
        lo is None
    } else {
        &&& lo matches Some(o)
        &&& lo->Some_0.with_links == (r.with_links is Some)
        &&& opt_view(lo->Some_0.link_type) == match r.with_links {
            Some(WithLinks::Type { link_type }) => Some(link_type@),
            _ => None,
        }
        &&& lo->Some_0.follow == (r.follow_links is Some)
        &&& lo->Some_0.depth == match r.follow_links {
            Some(f) => match f.depth {
                Some(d) => d,
                None => 1u32,
            },
            None => 1u32,
        }
    }
}

/// The pipeline stages a planned stage contributes: a step, a REFLECT, or
/// the stages of a nested pipeline.
pub open spec fn stage_piece(p: ExecutionPlan) -> Seq<PipelineStage> {
    match p {
        ExecutionPlan::Single(st) => seq![PipelineStage::Step(st)],
        ExecutionPlan::Pipeline(q) => q.stages@,
        ExecutionPlan::Reflect(r) => seq![PipelineStage::Reflect(r)],
        ExecutionPlan::FanOut(_) => Seq::empty(),
    }
}

/// The stages of planned pipeline stages, nested pipelines flattened.
pub open spec fn stage_list(v: Seq<ExecutionPlan>) -> Seq<PipelineStage>
    decreases v.len(),
{
    if v.len() == 0 {
        Seq::empty()
    } else {
        stage_list(v.drop_last()) + stage_piece(v.last())
    }
}

/// Whether a statement is planned as one step: anything but a pipeline, a
/// REFLECT, or a statement on every kind.
pub open spec fn plans_as_step(s: Statement) -> bool {
    match s {
        Statement::Pipeline(_) => false,
        Statement::Reflect(_) => false,
        Statement::Recall(x) => x.memory_type != AstMemoryType::All,
        Statement::Forget(x) => x.memory_type != AstMemoryType::All,
        _ => true,
    }
}

/// Whether `plan` is the plan of statement `s` by planner `pl`.
/// - A pipeline keeps its name and timeout, and its stages are those of
///   each stage's plan, in order, nested pipelines flattened.
/// - A REFLECT has one source per source of the statement (`ALL` expanded
///   to every kind in `MemoryType::all` order, see `reflect_sources_of`)
///   with no modifiers, the link options of `link_options_planned`, and a
///   follow-up step, the follow-up statement's plan, when that statement
///   plans as one step (see `plans_as_step`).
/// - `RECALL FROM ALL` and `FORGET FROM ALL` fan out with the statement's
///   predicate (the conditions for FORGET) and modifiers.
/// - Any other statement is one step (see `step_planned`).
pub open spec fn planned(pl: Planner, s: Statement, plan: ExecutionPlan) -> bool
    decreases s,
{
    match s {
        Statement::Pipeline(p) => {
            &&& plan matches ExecutionPlan::Pipeline(pp)
            &&& plan->Pipeline_0.name == p.name
            &&& plan->Pipeline_0.timeout == p.timeout
            &&& exists|plans: Seq<ExecutionPlan>|
                {
                    &&& plans.len() == p.stages@.len()
                    &&& forall|i: int| 0 <= i < plans.len() ==> planned(pl, #[trigger] p.stages@[i], plans[i])
                    &&& plan->Pipeline_0.stages@ == #[trigger] stage_list(plans)
                }
        },
        Statement::Reflect(r) => {
            &&& plan matches ExecutionPlan::Reflect(rp)
            &&& source_plan_views(plan->Reflect_0.sources@) == reflect_sources_of(r.sources@)
            &&& forall|i: int|
                0 <= i < plan->Reflect_0.sources@.len() ==> no_modifiers(#[trigger] plan->Reflect_0.sources@[i].modifiers)
            &&& link_options_planned(r, plan->Reflect_0.link_options)
            &&& match r.then_clause {
                None => plan->Reflect_0.then_step is None,
                Some(t) => if plans_as_step(*t) {
                    plan->Reflect_0.then_step matches Some(b) && planned(pl, *t, ExecutionPlan::Single(*b))
                } else {
                    plan->Reflect_0.then_step is None
                },
            }
        },
        Statement::Recall(x) => if x.memory_type == AstMemoryType::All {
            plan == ExecutionPlan::FanOut(
                FanOutPlan { operation: Operation::Recall, predicate: x.predicate, modifiers: x.modifiers, data: None },
            )
        } else {
            plan matches ExecutionPlan::Single(st) && step_planned(pl, s, st)
        },
        Statement::Forget(x) => if x.memory_type == AstMemoryType::All {
            plan == ExecutionPlan::FanOut(
                FanOutPlan {
                    operation: Operation::Forget,
                    predicate: Predicate::Where { conditions: x.conditions },
                    modifiers: x.modifiers,
                    data: None,
                },
            )
        } else {
            plan matches ExecutionPlan::Single(st) && step_planned(pl, s, st)
        },
        _ => plan matches ExecutionPlan::Single(st) && step_planned(pl, s, st),
    }
}

/// Whether `e` is the error planning `s` fails with: a pipeline without
/// stages is empty; else the first stage that cannot be planned gives its
/// own error, and the first that runs on every kind is refused; a
/// REFLECT's follow-up gives its error; a lookup, store, update or link
/// naming `ALL` as a target is refused.
pub open spec fn plan_failed(s: Statement, e: PlanError) -> bool
    decreases s,
{
    match s {
        Statement::Pipeline(p) => if p.stages@.len() == 0 {
            e is EmptyPipeline
        } else {
            exists|i: int|
                {
                    &&& 0 <= i < p.stages@.len()
                    &&& forall|j: int| 0 <= j < i ==> stage_plannable(p.stages@, j)
                    &&& if !plannable(#[trigger] p.stages@[i]) {
                        plan_failed(p.stages@[i], e)
                    } else {
                        &&& fans_out(p.stages@[i])
                        &&& e matches PlanError::UnsupportedOperation { op, memory_type }
                        &&& e->UnsupportedOperation_op@ == "FROM ALL in PIPELINE"@
                        &&& e->UnsupportedOperation_memory_type@ == "ALL"@
                    }
                }
        },
        Statement::Reflect(r) => match r.then_clause {
            Some(t) => plan_failed(*t, e),
            None => false,
        },
        Statement::Lookup(_) => all_target_error(e),
        Statement::Store(_) => all_target_error(e),
        Statement::Update(_) => all_target_error(e),
        Statement::Link(_) => all_target_error(e),
        _ => false,
    }
}

/// The planner, with the scope and namespace stored records get by default.
#[derive(Debug)]
pub struct Planner {
    default_scope: Scope,
    default_namespace: Option<String>,
}

impl Planner {
    /// The scope stored records get by default.
    pub closed spec fn scope(self) -> Scope {
        self.default_scope
    }

    /// The namespace stored records get by default.
    pub closed spec fn namespace(self) -> Option<Seq<char>> {
        opt_view(self.default_namespace)
    }

    /// A planner storing private records without a namespace by default.
    pub fn new() -> (r: Planner)
        ensures
            r.scope() == Scope::Private,
            r.namespace() is None,
    {
        Planner { default_scope: Scope::Private, default_namespace: None }
    }

    /// A planner with the given defaults.
    pub fn with_defaults(scope: Scope, namespace: Option<String>) -> (r: Planner)
        ensures
            r.scope() == scope,
            r.namespace() == opt_view(namespace),
    {
        Planner { default_scope: scope, default_namespace: namespace }
    }

    /// Plans a statement.  It fails exactly when the statement cannot be
    /// planned (see `plannable`), and plans a fan-out exactly for
    /// statements on every memory kind.
    pub fn plan(&self, stmt: Statement) -> (r: Result<ExecutionPlan, PlanError>)
        ensures
            r is Ok <==> plannable(stmt),
            match r {
                Ok(x) => planned(*self, stmt, x),
                Err(e) => plan_failed(stmt, e),
            },
            (r matches Ok(ExecutionPlan::FanOut(_))) <==> fans_out(stmt),
            stmt is Pipeline && r is Ok ==> r->Ok_0 is Pipeline,
            stmt is Reflect && r is Ok ==> r->Ok_0 is Reflect,
            (stmt is Scan || stmt is Lookup || stmt is Load || stmt is Store || stmt is Update || stmt is Link)
                && r is Ok ==> r->Ok_0 is Single,
            (stmt is Recall || stmt is Forget) && !fans_out(stmt) ==> r->Ok_0 is Single,
        decreases stmt, 1int,
    {
        let ghost s0 = stmt;
        match stmt {
            Statement::Pipeline(p) => self.plan_pipeline(p),
            Statement::Reflect(r) => self.plan_reflect(r),
            Statement::Scan(s) => Ok(ExecutionPlan::Single(self.plan_scan(s))),
            Statement::Recall(r) => Ok(self.plan_recall(r)),
            Statement::Lookup(l) => match self.plan_lookup(l) {
                Ok(step) => Ok(ExecutionPlan::Single(step)),
                Err(e) => Err(e),
            },
            Statement::Load(l) => Ok(ExecutionPlan::Single(self.plan_load(l))),
            Statement::Store(s) => match self.plan_store(s) {
                Ok(step) => Ok(ExecutionPlan::Single(step)),
                Err(e) => Err(e),
            },
            Statement::Update(u) => match self.plan_update(u) {
                Ok(step) => Ok(ExecutionPlan::Single(step)),
                Err(e) => Err(e),
            },
            Statement::Forget(f) => Ok(self.plan_forget(f)),
            Statement::Link(l) => match self.plan_link(l) {
                Ok(step) => Ok(ExecutionPlan::Single(step)),
                Err(e) => Err(e),
            },
        }
    }

    /// Plans a pipeline: its stages in order, nested pipelines flattened.
    #[verifier::loop_isolation(false)]
    fn plan_pipeline(&self, p: PipelineStmt) -> (r: Result<ExecutionPlan, PlanError>)
        ensures
            r is Ok <==> plannable(Statement::Pipeline(p)),
            match r {
                Ok(x) => planned(*self, Statement::Pipeline(p), x),
                Err(e) => plan_failed(Statement::Pipeline(p), e),
            },
        decreases Statement::Pipeline(p), 0int,
    {
        let ghost whole = Statement::Pipeline(p);
        if p.stages.len() == 0 {
            return Err(PlanError::EmptyPipeline);
        }
        let ghost stages0 = p.stages@;
        let PipelineStmt { name, timeout, stages } = p;
        let mut rest = crate::seqs::reversed(stages);
        let mut out: Vec<PipelineStage> = Vec::new();
        let ghost mut plans: Seq<ExecutionPlan> = Seq::empty();
        let n = rest.len();
        let mut i: usize = 0;
        while i < n
            invariant
                n == stages0.len(),
                stages0 == p.stages@,
                rest@.len() + i == n,
                i <= n,
                rest@.len() == n - i,
                forall|k: int| 0 <= k < n - i ==> #[trigger] rest@[k] == stages0[n - 1 - k],
                forall|k: int| 0 <= k < i ==> #[trigger] stage_plannable(stages0, k),
                plans.len() == i,
                forall|k: int| 0 <= k < i ==> planned(*self, #[trigger] stages0[k], plans[k]),
                out@ == stage_list(plans),
            decreases n - i,
        {
            let stage = rest.pop().unwrap();
            proof {
                assert(stage == stages0[i as int]);
                assert(decreases_to!(whole => whole->Pipeline_0));
                assert(decreases_to!(whole->Pipeline_0 => whole->Pipeline_0.stages));
                assert(decreases_to!(whole->Pipeline_0.stages => whole->Pipeline_0.stages@));
                assert(decreases_to!(whole->Pipeline_0.stages@ => whole->Pipeline_0.stages@[i as int]));
                assert(decreases_to!(whole => stages0[i as int]));
            }
            let res = self.plan(stage);
            let ghost pr = res;
            match res {
                Ok(ExecutionPlan::Single(step)) => {
                    out.push(PipelineStage::Step(step));
                },
                Ok(ExecutionPlan::Pipeline(inner)) => {
                    let mut more = inner.stages;
                    out.append(&mut more);
                },
                Ok(ExecutionPlan::Reflect(r)) => {
                    out.push(PipelineStage::Reflect(r));
                },
                Ok(ExecutionPlan::FanOut(_)) => {
                    proof {
                        reveal_strlit("FROM ALL in PIPELINE");
                        reveal_strlit("ALL");
                        assert(!stage_plannable(stages0, i as int));
                        assert(whole->Pipeline_0.stages@ == stages0);
                        assert(!plannable(whole));
                    }
                    let e = PlanError::UnsupportedOperation {
                        op: owned("FROM ALL in PIPELINE"),
                        memory_type: owned("ALL"),
                    };
                    proof {
                        assert(plannable(stages0[i as int]));
                        assert(plan_failed(whole, e));
                    }
                    return Err(e);
                },
                Err(e) => {
                    proof {
                        assert(!stage_plannable(stages0, i as int));
                        assert(whole->Pipeline_0.stages@ == stages0);
                        assert(!plannable(whole));
                        assert(!plannable(stages0[i as int]));
                        assert(plan_failed(whole, e));
                    }
                    return Err(e);
                },
            }
            proof {
                assert(stage_plannable(stages0, i as int));
                let x = pr->Ok_0;
                let np = plans.push(x);
                assert(np.drop_last() =~= plans);
                assert(stage_list(np) == stage_list(plans) + stage_piece(x));
                assert(out@ =~= stage_list(np));
                plans = np;
            }
            i = i + 1;
        }
        proof {
            assert(whole->Pipeline_0.stages@ == stages0);
            assert forall|k: int| 0 <= k < stages0.len() implies plannable(#[trigger] stages0[k]) && !fans_out(stages0[k]) by {
                assert(stage_plannable(stages0, k));
            }
            assert(stages0.len() > 0);
            assert(plannable(whole));
        }
        let r = ExecutionPlan::Pipeline(PipelinePlan { name, timeout, stages: out });
        assert(planned(*self, whole, r));
        Ok(r)
    }

    /// Plans a REFLECT: `FROM ALL` becomes one source per memory kind.
    fn plan_reflect(&self, r: ReflectStmt) -> (res: Result<ExecutionPlan, PlanError>)
        ensures
            res is Ok <==> plannable(Statement::Reflect(r)),
            match res {
                Ok(x) => planned(*self, Statement::Reflect(r), x),
                Err(e) => plan_failed(Statement::Reflect(r), e),
            },
        decreases Statement::Reflect(r), 0int,
    {
        let ghost whole = Statement::Reflect(r);
        let ghost sources0 = r.sources@;
        let ReflectStmt { sources, with_links, follow_links, then_clause } = r;
        let mut planned_sources: Vec<ReflectSourcePlan> = Vec::new();
        let mut rest = crate::seqs::reversed(sources);
        let n = rest.len();
        let mut i: usize = 0;
        while i < n
            invariant
                n == sources0.len(),
                rest@.len() + i == n,
                i <= n,
                forall|k: int| 0 <= k < n - i ==> #[trigger] rest@[k] == sources0[n - 1 - k],
                source_plan_views(planned_sources@) == reflect_sources_of(sources0.take(i as int)),
                forall|k: int| 0 <= k < planned_sources@.len() ==> no_modifiers(#[trigger] planned_sources@[k].modifiers),
            decreases n - i,
        {
            let source = rest.pop().unwrap();
            let ghost src = source;
            assert(src == sources0[i as int]);
            let ghost before = source_plan_views(planned_sources@);
            let ReflectSource { memory_type, predicate } = source;
            let pred = match predicate {
                Some(p) => p,
                None => Predicate::All,
            };
            assert(pred@ == source_predicate(src));
            match memory_type {
                AstMemoryType::All => {
                    let kinds = MemoryType::all();
                    let mut k: usize = 0;
                    while k < kinds.len()
                        invariant
                            k <= kinds@.len(),
                            kinds@ == every_kind(),
                            pred@ == source_predicate(src),
                            source_plan_views(planned_sources@) == before + every_kind().take(k as int).map_values(
                                |t: MemoryType| (t, source_predicate(src)),
                            ),
                            forall|j: int|
                                0 <= j < planned_sources@.len() ==> no_modifiers(#[trigger] planned_sources@[j].modifiers),
                        decreases kinds@.len() - k,
                    {
                        let ghost b2 = source_plan_views(planned_sources@);
                        planned_sources.push(ReflectSourcePlan {
                            memory_type: kinds[k],
                            predicate: pred.copy(),
                            modifiers: Modifiers::default(),
                        });
                        assert(source_plan_views(planned_sources@) =~= b2.push((kinds@[k as int], source_predicate(src))));
                        assert(every_kind().take(k + 1).map_values(|t: MemoryType| (t, source_predicate(src)))
                            =~= every_kind().take(k as int).map_values(|t: MemoryType| (t, source_predicate(src))).push(
                            (kinds@[k as int], source_predicate(src)),
                        ));
                        k = k + 1;
                    }
                    assert(every_kind().take(5) =~= every_kind());
                },
                _ => {
                    planned_sources.push(ReflectSourcePlan {
                        memory_type: convert_memory_type(memory_type).unwrap(),
                        predicate: pred,
                        modifiers: Modifiers::default(),
                    });
                    assert(source_plan_views(planned_sources@) =~= before + source_plans(src));
                },
            }
            proof {
                assert(sources0.take(i + 1).drop_last() =~= sources0.take(i as int));
                assert(sources0.take(i + 1).last() == src);
            }
            i = i + 1;
        }
        assert(sources0.take(n as int) =~= sources0);
        let link_options = if with_links.is_some() || follow_links.is_some() {
            let link_type = match &with_links {
                Some(WithLinks::Type { link_type }) => Some(copy_string(link_type)),
                _ => None,
            };
            let depth = match &follow_links {
                Some(f) => match f.depth {
                    Some(d) => d,
                    None => 1,
                },
                None => 1,
            };
            Some(LinkOptions {
                with_links: with_links.is_some(),
                link_type,
                follow: follow_links.is_some(),
                depth,
            })
        } else {
            None
        };
        assert(link_options_planned(r, link_options));
        let then_step = match then_clause {
            Some(t) => {
                proof {
                    assert(decreases_to!(whole => whole->Reflect_0));
                    assert(decreases_to!(whole->Reflect_0 => whole->Reflect_0.then_clause));
                    assert(decreases_to!(whole->Reflect_0.then_clause => whole->Reflect_0.then_clause->Some_0));
                    assert(decreases_to!(whole => *t));
                }
                let ghost tv = *t;
                let q = self.plan(*t);
                let ghost qv = q;
                match q {
                    Ok(ExecutionPlan::Single(step)) => {
                        let b = Some(Box::new(step));
                        assert(planned(*self, tv, qv->Ok_0));
                        b
                    },
                    Ok(_) => {
                        assert(planned(*self, tv, qv->Ok_0));
                        None
                    },
                    Err(e) => {
                        return Err(e);
                    },
                }
            },
            None => None,
        };
        let res = ExecutionPlan::Reflect(ReflectPlan { sources: planned_sources, link_options, then_step });
        assert(planned(*self, whole, res));
        Ok(res)
    }

    /// Plans a SCAN: the window joins the modifiers.
    fn plan_scan(&self, s: ScanStmt) -> (r: StepPlan)
        ensures
            r.operation == Operation::Scan,
            r.memory_type == MemoryType::Working,
            r.predicate == Predicate::All,
            r.modifiers == (Modifiers { window: s.window, ..s.modifiers }),
            r.data is None,
    {
        let ScanStmt { window, modifiers } = s;
        let mut m = modifiers;
        m.window = window;
        StepPlan::scan(m)
    }

    /// Plans a RECALL: `FROM ALL` fans out.
    fn plan_recall(&self, r: RecallStmt) -> (res: ExecutionPlan)
        ensures
            r.memory_type == AstMemoryType::All ==> res == ExecutionPlan::FanOut(FanOutPlan {
                operation: Operation::Recall,
                predicate: r.predicate,
                modifiers: r.modifiers,
                data: None,
            }),
            r.memory_type != AstMemoryType::All ==> res == ExecutionPlan::Single(StepPlan {
                operation: Operation::Recall,
                memory_type: target_type(r.memory_type).unwrap(),
                predicate: r.predicate,
                modifiers: r.modifiers,
                data: None,
            }),
    {
        let RecallStmt { memory_type, predicate, modifiers } = r;
        match convert_memory_type(memory_type) {
            Ok(t) => ExecutionPlan::Single(StepPlan::recall(t, predicate, modifiers)),
            Err(_) => ExecutionPlan::FanOut(
                FanOutPlan { operation: Operation::Recall, predicate, modifiers, data: None },
            ),
        }
    }

    /// Plans a LOOKUP.
    fn plan_lookup(&self, l: LookupStmt) -> (r: Result<StepPlan, PlanError>)
        ensures
            match target_type(l.memory_type) {
                Some(t) => r == Ok::<StepPlan, PlanError>(StepPlan {
                    operation: Operation::Lookup,
                    memory_type: t,
                    predicate: l.predicate,
                    modifiers: l.modifiers,
                    data: None,
                }),
                None => r matches Err(e) && all_target_error(e),
            },
    {
        let LookupStmt { memory_type, predicate, modifiers } = l;
        match convert_memory_type(memory_type) {
            Ok(t) => Ok(StepPlan::lookup(t, predicate, modifiers)),
            Err(e) => Err(e),
        }
    }

    /// Plans a LOAD of tools.
    fn plan_load(&self, l: LoadStmt) -> (r: StepPlan)
        ensures
            r == (StepPlan {
                operation: Operation::Load,
                memory_type: MemoryType::Tools,
                predicate: l.predicate,
                modifiers: l.modifiers,
                data: None,
            }),
    {
        let LoadStmt { predicate, modifiers } = l;
        StepPlan::load(predicate, modifiers)
    }

    /// Plans a STORE: the key is the text of the first `key` or `id`
    /// assignment (a fresh UUID when there is none, or when its value is a
    /// double), the payload the assignments, the scope and namespace those
    /// of the modifiers or the planner's defaults.
    fn plan_store(&self, s: StoreStmt) -> (r: Result<StepPlan, PlanError>)
        ensures
            match target_type(s.memory_type) {
                Some(t) => r matches Ok(step) && step_planned(*self, Statement::Store(s), step),
                None => r matches Err(e) && all_target_error(e),
            },
    {
        let StoreStmt { memory_type, payload, modifiers } = s;
        let t = match convert_memory_type(memory_type) {
            Ok(t) => t,
            Err(e) => {
                return Err(e);
            },
        };
        let found = find_key(&payload);
        let key = match found {
            Some(k) => k,
            None => new_uuid(),
        };
        assert(store_key_ok(payload@, key@));
        let json_payload = assignments_to_json(&payload);
        let scope = match modifiers.scope {
            Some(x) => x,
            None => self.default_scope,
        };
        let namespace = match &modifiers.namespace {
            Some(n) => Some(copy_string(n)),
            None => crate::memory::copy_opt_string(&self.default_namespace),
        };
        let data = StoreData { key, payload: json_payload, scope, namespace, ttl: modifiers.ttl };
        let ghost d = data;
        assert(store_data_planned(*self, s, d));
        let step = StepPlan::store(t, data, modifiers);
        assert(step_planned(*self, Statement::Store(s), step));
        Ok(step)
    }

    /// Plans an UPDATE: the conditions become a WHERE predicate.
    fn plan_update(&self, u: UpdateStmt) -> (r: Result<StepPlan, PlanError>)
        ensures
            match target_type(u.memory_type) {
                Some(t) => r matches Ok(step) && step_planned(*self, Statement::Update(u), step),
                None => r matches Err(e) && all_target_error(e),
            },
    {
        let UpdateStmt { memory_type, conditions, payload, modifiers } = u;
        let t = match convert_memory_type(memory_type) {
            Ok(t) => t,
            Err(e) => {
                return Err(e);
            },
        };
        let json_payload = assignments_to_json(&payload);
        Ok(StepPlan::update(t, Predicate::Where { conditions }, json_payload, modifiers))
    }

    /// Plans a FORGET: the conditions become a WHERE predicate; `FROM ALL`
    /// fans out.
    fn plan_forget(&self, f: ForgetStmt) -> (r: ExecutionPlan)
        ensures
            f.memory_type == AstMemoryType::All ==> r == ExecutionPlan::FanOut(FanOutPlan {
                operation: Operation::Forget,
                predicate: Predicate::Where { conditions: f.conditions },
                modifiers: f.modifiers,
                data: None,
            }),
            f.memory_type != AstMemoryType::All ==> r == ExecutionPlan::Single(StepPlan {
                operation: Operation::Forget,
                memory_type: target_type(f.memory_type).unwrap(),
                predicate: Predicate::Where { conditions: f.conditions },
                modifiers: f.modifiers,
                data: None,
            }),
    {
        let ForgetStmt { memory_type, conditions, modifiers } = f;
        let predicate = Predicate::Where { conditions };
        match convert_memory_type(memory_type) {
            Ok(t) => ExecutionPlan::Single(StepPlan::forget(t, predicate, modifiers)),
            Err(_) => ExecutionPlan::FanOut(
                FanOutPlan { operation: Operation::Forget, predicate, modifiers, data: None },
            ),
        }
    }

    /// Plans a LINK between the records matching two condition lists; the
    /// weight is 1.0 unless given.
    fn plan_link(&self, l: LinkStmt) -> (r: Result<StepPlan, PlanError>)
        ensures
            match (target_type(l.from_type), target_type(l.to_type)) {
                (Some(ft), Some(tt)) => r matches Ok(step) && step_planned(*self, Statement::Link(l), step),
                _ => r matches Err(e) && all_target_error(e),
            },
    {
        let LinkStmt { from_type, from_conditions, to_type, to_conditions, link_type, weight } = l;
        let ft = match convert_memory_type(from_type) {
            Ok(t) => t,
            Err(e) => {
                return Err(e);
            },
        };
        let tt = match convert_memory_type(to_type) {
            Ok(t) => t,
            Err(e) => {
                return Err(e);
            },
        };
        let data = LinkData {
            from_type: ft,
            from_predicate: Predicate::Where { conditions: from_conditions },
            to_type: tt,
            to_predicate: Predicate::Where { conditions: to_conditions },
            link_type,
            weight: match weight {
                Some(w) => w,
                None => F32_ONE,
            },
        };
        Ok(StepPlan::link(data))
    }
}

impl Default for Planner {
    fn default() -> (r: Planner)
        ensures
            r.scope() == Scope::Private,
            r.namespace() is None,
    {
        Planner::new()
    }
}

/// The memory kind a statement names; `ALL` cannot be a target.
fn convert_memory_type(t: AstMemoryType) -> (r: Result<MemoryType, PlanError>)
    ensures
        match target_type(t) {
            Some(m) => r == Ok::<MemoryType, PlanError>(m),
            None => r matches Err(PlanError::InvalidMemoryType(msg))
                && msg@ == "ALL cannot be used as target memory type"@,
        },
{
    match t {
        AstMemoryType::Working => Ok(MemoryType::Working),
        AstMemoryType::Tools => Ok(MemoryType::Tools),
        AstMemoryType::Procedural => Ok(MemoryType::Procedural),
        AstMemoryType::Semantic => Ok(MemoryType::Semantic),
        AstMemoryType::Episodic => Ok(MemoryType::Episodic),
        AstMemoryType::All => {
            proof {
                reveal_strlit("ALL cannot be used as target memory type");
            }
            Err(PlanError::InvalidMemoryType(owned("ALL cannot be used as target memory type")))
        },
    }
}

/// `key_text`.
fn value_key_string(v: &Value) -> (r: Option<String>)
    ensures
        match r {
            Some(x) => key_text(v@) == Some(x@),
            None => key_text(v@) is None,
        },
{
    proof {
        reveal_strlit("true");
        reveal_strlit("false");
        reveal_strlit("null");
        reveal_strlit("array");
    }
    match v {
        Value::String(s) => Some(copy_string(s)),
        Value::Int(i) => {
            let mut s = String::new();
            crate::episodic::push_int_text(&mut s, *i);
            assert(s@ =~= crate::episodic::int_text(*i as int));
            Some(s)
        },
        Value::Bool(b) => Some(if *b { owned("true") } else { owned("false") }),
        Value::Null => Some(owned("null")),
        Value::Variable(n) => {
            let mut s = String::new();
            push_char(&mut s, '$');
            s.append(n.as_str());
            assert(s@ =~= seq!['$'] + n@);
            Some(s)
        },
        Value::Array(_) => Some(owned("array")),
        Value::Float(_) => None,
    }
}

/// The key text of the first `key` or `id` assignment, if it has one.
fn find_key(a: &Vec<FieldAssignment>) -> (r: Option<String>)
    ensures
        match key_assignment(a@) {
            Some(i) => match key_text(a@[i].value@) {
                Some(k) => r matches Some(x) && x@ == k,
                None => r is None,
            },
            None => r is None,
        },
{
    proof {
        reveal_strlit("key");
        reveal_strlit("id");
    }
    let mut i: usize = 0;
    while i < a.len()
        invariant
            i <= a@.len(),
            forall|j: int| 0 <= j < i ==> !(a@[j].field@ == "key"@ || a@[j].field@ == "id"@),
        decreases a@.len() - i,
    {
        if str_eq(a[i].field.as_str(), "key") || str_eq(a[i].field.as_str(), "id") {
            proof {
                let c = key_assignment(a@).unwrap();
                if c != i as int {
                    if c < i as int {
                    } else {
                        assert(!(a@[i as int].field@ == "key"@ || a@[i as int].field@ == "id"@));
                    }
                }
            }
            return value_key_string(&a[i].value);
        }
        i = i + 1;
    }
    None
}

/// The payload of a list of assignments, as a JSON object.
fn assignments_to_json(a: &Vec<FieldAssignment>) -> (r: Json)
    ensures
        r@ == JsonView::Object(assignments_json(a@)),
{
    let mut m: Vec<(String, Json)> = Vec::new();
    assert(members_view(m@) =~= Seq::empty());
    let mut i: usize = 0;
    while i < a.len()
        invariant
            i <= a@.len(),
            members_view(m@) == assignments_json(a@.take(i as int)),
        decreases a@.len() - i,
    {
        let v = a[i].value.to_json();
        set_member(&mut m, copy_string(&a[i].field), v);
        proof {
            assert(a@.take(i + 1).drop_last() =~= a@.take(i as int));
            assert(a@.take(i + 1).last() == a@[i as int]);
        }
        i = i + 1;
    }
    assert(a@.take(a@.len() as int) =~= a@);
    object_of(m)
}

} // verus!

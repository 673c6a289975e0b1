use agentdb::adb::Adb;
use agentdb::ast::{
    AstMemoryType, FieldAssignment, ForgetStmt, LinkStmt, LoadStmt, LookupStmt, PipelineStmt, RecallStmt,
    ReflectSource, ReflectStmt, ScanStmt, Statement, StoreStmt,
};
use agentdb::executor::{Executor, ExecutorError, Outside};
use agentdb::json::{Json, Number};
use agentdb::memory::MemoryType;
use agentdb::predicate::{
    AggregateFunc, AggregateFuncType, Condition, FollowLinks, Modifiers, Operator, Predicate, Value, WithLinks,
};
use agentdb::result::ResultSet;

type Calls = Outside<fn(String) -> Option<u64>, fn(u32, u32) -> u32, fn(AggregateFuncType, Vec<u64>) -> u64, fn(Json) -> String>;

fn text(s: &str) -> Json {
    Json::String(s.to_string())
}

fn num(i: i64) -> Json {
    if i >= 0 {
        Json::Number(Number::PosInt(i as u64))
    } else {
        Json::Number(Number::NegInt(i))
    }
}

fn float(x: f64) -> Json {
    Json::Number(Number::Float(x.to_bits()))
}

fn obj(members: Vec<(&str, Json)>) -> Json {
    Json::Object(members.into_iter().map(|(k, v)| (k.to_string(), v)).collect())
}

fn texts(items: &[&str]) -> Json {
    Json::Array(items.iter().map(|s| text(s)).collect())
}

fn parse(s: String) -> Option<u64> {
    s.parse::<f64>().ok().map(f64::to_bits)
}

fn weigh(ranking: u32, relevance: u32) -> u32 {
    (f32::from_bits(ranking) * 0.7 + f32::from_bits(relevance) * 0.3).to_bits()
}

fn number(j: &Json) -> Option<f64> {
    match j {
        Json::Number(Number::PosInt(u)) => Some(*u as f64),
        Json::Number(Number::NegInt(i)) => Some(*i as f64),
        Json::Number(Number::Float(b)) => Some(f64::from_bits(*b)),
        _ => None,
    }
}

/// The sum, mean, least or greatest of doubles (bit patterns).
fn reduce(func: AggregateFuncType, values: Vec<u64>) -> u64 {
    let xs: Vec<f64> = values.into_iter().map(f64::from_bits).collect();
    let x = match func {
        AggregateFuncType::Count => 0.0,
        AggregateFuncType::Sum => xs.iter().sum(),
        AggregateFuncType::Avg => xs.iter().sum::<f64>() / xs.len() as f64,
        AggregateFuncType::Min => xs.iter().cloned().fold(f64::INFINITY, f64::min),
        AggregateFuncType::Max => xs.iter().cloned().fold(f64::NEG_INFINITY, f64::max),
    };
    x.to_bits()
}

/// A rough JSON text, enough for the values bound here.
fn to_text(j: Json) -> String {
    match j {
        Json::Null => "null".to_string(),
        Json::Bool(b) => b.to_string(),
        Json::String(s) => format!("{:?}", s),
        Json::Array(v) => format!("[{}]", v.into_iter().map(to_text).collect::<Vec<_>>().join(",")),
        Json::Object(m) => {
            format!("{{{}}}", m.into_iter().map(|(k, v)| format!("{:?}:{}", k, to_text(v))).collect::<Vec<_>>().join(","))
        },
        n => match number(&n) {
            Some(x) => x.to_string(),
            None => "null".to_string(),
        },
    }
}

fn calls() -> Calls {
    Outside { parse, weigh, reduce, text: to_text }
}

fn executor() -> Executor {
    Executor::new(Adb::new())
}

fn store(e: &mut Executor, t: MemoryType, key: &str, data: Json) {
    e.adb_mut().store(t, key, data, &(parse as fn(String) -> Option<u64>));
}

fn run(e: &mut Executor, stmt: Statement) -> Result<agentdb::result::QueryResult, ExecutorError> {
    e.execute_statement(stmt, &calls())
}

fn scan(limit: Option<usize>) -> Statement {
    let mut modifiers = Modifiers::default();
    modifiers.limit = limit;
    Statement::Scan(ScanStmt { window: None, modifiers })
}

fn recall(t: AstMemoryType, predicate: Predicate, modifiers: Modifiers) -> Statement {
    Statement::Recall(RecallStmt { memory_type: t, predicate, modifiers })
}

fn record_ids(data: &ResultSet) -> Vec<String> {
    match data {
        ResultSet::Records { records } => records.iter().map(|r| r.id.clone()).collect(),
        _ => panic!("Expected records result"),
    }
}

fn populated() -> Executor {
    let mut e = executor();
    store(&mut e, MemoryType::Working, "task-1", obj(vec![("status", text("active")), ("priority", num(5))]));
    store(&mut e, MemoryType::Working, "task-2", obj(vec![("status", text("pending")), ("priority", num(3))]));
    store(&mut e, MemoryType::Working, "task-3", obj(vec![("status", text("completed")), ("priority", num(8))]));
    store(
        &mut e,
        MemoryType::Tools,
        "read-file",
        obj(vec![
            ("name", text("Read File")),
            ("description", text("Reads file contents from disk")),
            ("category", text("file")),
            ("ranking", float(0.9)),
        ]),
    );
    store(
        &mut e,
        MemoryType::Tools,
        "write-file",
        obj(vec![
            ("name", text("Write File")),
            ("description", text("Writes content to a file")),
            ("category", text("file")),
            ("ranking", float(0.85)),
        ]),
    );
    store(
        &mut e,
        MemoryType::Procedural,
        "oom-fix",
        obj(vec![
            ("pattern", text("OOMKilled container memory exceeded")),
            ("steps", texts(&["Check memory limits", "Increase memory allocation", "Restart pod"])),
            ("severity", text("critical")),
        ]),
    );
    e
}

#[test]
fn test_execute_scan() {
    let mut e = executor();
    store(&mut e, MemoryType::Working, "task-1", obj(vec![("status", text("active"))]));

    let result = run(&mut e, scan(None)).unwrap();
    assert!(result.success);
    assert_eq!(record_ids(&result.data).len(), 1);
}

#[test]
fn test_execute_recall() {
    let mut e = executor();
    store(&mut e, MemoryType::Working, "task-1", obj(vec![("status", text("active")), ("priority", num(5))]));
    store(&mut e, MemoryType::Working, "task-2", obj(vec![("status", text("completed")), ("priority", num(3))]));

    let result = run(
        &mut e,
        recall(AstMemoryType::Working, Predicate::where_eq("status", Value::string("active")), Modifiers::default()),
    )
    .unwrap();
    assert!(result.success);
    assert_eq!(record_ids(&result.data), vec!["task-1".to_string()]);
}

#[test]
fn test_execute_lookup() {
    let mut e = executor();
    store(&mut e, MemoryType::Working, "task-1", obj(vec![("name", text("Test Task"))]));

    let stmt = Statement::Lookup(LookupStmt {
        memory_type: AstMemoryType::Working,
        predicate: Predicate::key("id", Value::string("task-1")),
        modifiers: Modifiers::default(),
    });
    let result = run(&mut e, stmt).unwrap();
    assert!(result.success);
    assert_eq!(record_ids(&result.data).len(), 1);
}

#[test]
fn test_execute_store() {
    let mut e = executor();
    let stmt = Statement::Store(StoreStmt {
        memory_type: AstMemoryType::Working,
        payload: vec![
            FieldAssignment { field: "key".to_string(), value: Value::string("new-task") },
            FieldAssignment { field: "name".to_string(), value: Value::string("New Task") },
            FieldAssignment { field: "priority".to_string(), value: Value::Int(1) },
        ],
        modifiers: Modifiers::default(),
    });
    let result = run(&mut e, stmt).unwrap();
    assert!(result.success);
    match result.data {
        ResultSet::Stored { record } => assert_eq!(record.id, "new-task"),
        _ => panic!("Expected stored result"),
    }
    assert_eq!(e.adb().count(MemoryType::Working), 1);
}

#[test]
fn test_execute_forget() {
    let mut e = executor();
    store(&mut e, MemoryType::Working, "temp-1", obj(vec![("temp", Json::Bool(true))]));
    store(&mut e, MemoryType::Working, "temp-2", obj(vec![("temp", Json::Bool(true))]));
    store(&mut e, MemoryType::Working, "keep", obj(vec![("temp", Json::Bool(false))]));
    assert_eq!(e.adb().count(MemoryType::Working), 3);

    let stmt = Statement::Forget(ForgetStmt {
        memory_type: AstMemoryType::Working,
        conditions: vec![Condition::eq("temp", Value::Bool(true))],
        modifiers: Modifiers::default(),
    });
    let result = run(&mut e, stmt).unwrap();
    assert!(result.success);
    assert_eq!(result.get_count(), Some(2));
    assert_eq!(e.adb().count(MemoryType::Working), 1);
}

#[test]
fn test_execute_pipeline() {
    let mut e = executor();
    store(&mut e, MemoryType::Working, "task-1", obj(vec![("status", text("active"))]));

    let stmt = Statement::Pipeline(PipelineStmt {
        name: "test_pipe".to_string(),
        timeout: None,
        stages: vec![scan(None), scan(Some(1))],
    });
    let result = run(&mut e, stmt).unwrap();
    assert!(result.success);
    match result.data {
        ResultSet::Pipeline { steps } => assert_eq!(steps.len(), 2),
        _ => panic!("Expected pipeline result"),
    }
}

#[test]
fn integration_test_scan_all() {
    let mut e = populated();
    let result = run(&mut e, scan(None)).unwrap();
    assert!(result.success);
    assert_eq!(result.get_records().unwrap().len(), 3);
}

#[test]
fn test_scan_with_limit() {
    let mut e = populated();
    let result = run(&mut e, scan(Some(2))).unwrap();
    assert!(result.success);
    assert_eq!(result.get_records().unwrap().len(), 2);
}

#[test]
fn test_recall_with_comparison() {
    let mut e = populated();
    let result = run(
        &mut e,
        recall(
            AstMemoryType::Working,
            Predicate::Where { conditions: vec![Condition::gt("priority", Value::Int(4))] },
            Modifiers::default(),
        ),
    )
    .unwrap();
    assert!(result.success);
    assert_eq!(result.get_records().unwrap().len(), 2);
}

#[test]
fn test_load_tools() {
    let mut e = populated();
    let stmt = Statement::Load(LoadStmt {
        predicate: Predicate::where_eq("category", Value::string("file")),
        modifiers: Modifiers::with_limit(2),
    });
    let result = run(&mut e, stmt).unwrap();
    assert!(result.success);
    let records = result.get_records().unwrap();
    assert_eq!(records.len(), 2);
    assert_eq!(records[0].id, "read-file");
}

#[test]
fn test_procedural_recall() {
    let mut e = populated();
    let result = run(
        &mut e,
        recall(AstMemoryType::Procedural, Predicate::where_eq("severity", Value::string("critical")), Modifiers::default()),
    )
    .unwrap();
    assert!(result.success);
    let records = result.get_records().unwrap();
    assert_eq!(records.len(), 1);
    assert_eq!(records[0].id, "oom-fix");
}

#[test]
fn test_empty_result() {
    let mut e = populated();
    let result = run(
        &mut e,
        recall(AstMemoryType::Working, Predicate::where_eq("status", Value::string("nonexistent")), Modifiers::default()),
    )
    .unwrap();
    assert!(result.success);
    assert_eq!(result.get_records().unwrap().len(), 0);
}

#[test]
fn test_follow_links() {
    let mut e = executor();
    store(
        &mut e,
        MemoryType::Procedural,
        "oom-fix",
        obj(vec![("pattern", text("OOMKilled")), ("steps", texts(&["Check memory", "Increase limit"]))]),
    );
    store(&mut e, MemoryType::Episodic, "inc-001", obj(vec![("incident_type", text("OOM")), ("pod", text("api-server"))]));
    e.adb_mut().link(MemoryType::Procedural, "oom-fix", MemoryType::Episodic, "inc-001", "applied_to", 0.95f32.to_bits());

    let mut modifiers = Modifiers::default();
    modifiers.follow_links = Some(FollowLinks { link_type: "applied_to".to_string(), depth: None });
    let result =
        run(&mut e, recall(AstMemoryType::Procedural, Predicate::where_eq("pattern", Value::string("OOMKilled")), modifiers))
            .unwrap();
    assert!(result.success);
    let records = result.get_records().unwrap();
    assert_eq!(records.len(), 1, "Expected 1 target record from FOLLOW LINKS");
    assert_eq!(records[0].id, "inc-001");
    assert_eq!(records[0].get_str("pod"), Some("api-server"));
}

#[test]
fn test_having_with_alias() {
    let mut e = executor();
    store(&mut e, MemoryType::Episodic, "e1", obj(vec![("strategy", text("tech_news")), ("ctr", float(0.05))]));
    store(&mut e, MemoryType::Episodic, "e2", obj(vec![("strategy", text("tech_news")), ("ctr", float(0.03))]));
    store(&mut e, MemoryType::Episodic, "e3", obj(vec![("strategy", text("sports")), ("ctr", float(0.08))]));

    let mut modifiers = Modifiers::default();
    modifiers.aggregate =
        Some(vec![AggregateFunc { func: AggregateFuncType::Count, field: None, alias: Some("total".to_string()) }]);
    modifiers.having = Some(vec![Condition::gt("total", Value::Int(0))]);
    let result = run(
        &mut e,
        recall(AstMemoryType::Episodic, Predicate::where_eq("strategy", Value::string("tech_news")), modifiers),
    )
    .unwrap();

    assert!(result.success, "Query should succeed");
    match &result.data {
        ResultSet::Aggregation { values } => match values {
            Json::Object(m) => {
                let total = m.iter().find(|(k, _)| k == "total");
                assert!(total.is_some(), "Result should have 'total' key");
                assert_eq!(total.unwrap().1.as_i64(), Some(2), "Count should be 2");
            },
            _ => panic!("Result should be an object"),
        },
        _ => panic!("Expected Aggregation result"),
    }
}

#[test]
fn having_that_fails_gives_null() {
    let mut e = executor();
    store(&mut e, MemoryType::Episodic, "e1", obj(vec![("v", num(1))]));
    let mut modifiers = Modifiers::default();
    modifiers.aggregate =
        Some(vec![AggregateFunc { func: AggregateFuncType::Count, field: None, alias: Some("total".to_string()) }]);
    modifiers.having = Some(vec![Condition::gt("total", Value::Int(5))]);
    let result = run(&mut e, recall(AstMemoryType::Episodic, Predicate::All, modifiers)).unwrap();
    match result.data {
        ResultSet::Aggregation { values } => assert!(matches!(values, Json::Null)),
        _ => panic!("Expected Aggregation result"),
    }
}

#[test]
fn recall_with_links_shows_them() {
    let mut e = populated();
    e.adb_mut().link(MemoryType::Working, "task-1", MemoryType::Tools, "read-file", "uses", 0.5f32.to_bits());
    let mut modifiers = Modifiers::default();
    modifiers.with_links = Some(WithLinks::All);
    let result =
        run(&mut e, recall(AstMemoryType::Working, Predicate::where_eq("status", Value::string("active")), modifiers)).unwrap();
    let records = result.get_records().unwrap();
    match records[0].get("links") {
        Some(Json::Array(items)) => {
            assert_eq!(items.len(), 1);
            match &items[0] {
                Json::Object(m) => {
                    let keys: Vec<&str> = m.iter().map(|(k, _)| k.as_str()).collect();
                    assert_eq!(keys, vec!["link_type", "to_id", "to_type", "weight"]);
                    assert!(matches!(&m[2].1, Json::String(s) if s == "Tools"));
                },
                _ => panic!("a link is an object"),
            }
        },
        _ => panic!("records carry their links"),
    }
}

#[test]
fn link_statement_links_every_pair() {
    let mut e = populated();
    let stmt = Statement::Link(LinkStmt {
        from_type: AstMemoryType::Working,
        from_conditions: vec![Condition::new("priority", Operator::Gte, Value::Int(5))],
        to_type: AstMemoryType::Tools,
        to_conditions: vec![Condition::eq("category", Value::string("file"))],
        link_type: "needs".to_string(),
        weight: None,
    });
    let result = run(&mut e, stmt).unwrap();
    assert_eq!(result.get_count(), Some(4));
    assert_eq!(e.adb().link_count(), 4);
    let from_task = e.adb().get_links_from(MemoryType::Working, "task-1", Some("needs"));
    assert_eq!(from_task.len(), 2);
    assert_eq!(f32::from_bits(from_task[0].weight), 1.0);
}

#[test]
fn link_statement_without_targets_fails() {
    let mut e = populated();
    let stmt = Statement::Link(LinkStmt {
        from_type: AstMemoryType::Working,
        from_conditions: vec![],
        to_type: AstMemoryType::Semantic,
        to_conditions: vec![Condition::eq("topic", Value::string("none"))],
        link_type: "about".to_string(),
        weight: Some(0.5f32.to_bits()),
    });
    match run(&mut e, stmt) {
        Err(err) => {
            assert!(matches!(err, ExecutorError::LinkValidation(_)));
            assert_eq!(err.to_string(), "Link validation failed: No target records found in Semantic matching predicate");
        },
        Ok(_) => panic!("linking to nothing fails"),
    }
    assert_eq!(e.adb().link_count(), 0);
}

#[test]
fn recall_from_all_gives_one_source_per_kind() {
    let mut e = populated();
    let result = run(&mut e, recall(AstMemoryType::All, Predicate::All, Modifiers::default())).unwrap();
    match result.data {
        ResultSet::Reflect { sources, links } => {
            let kinds: Vec<&str> = sources.iter().map(|s| s.memory_type.as_str()).collect();
            assert_eq!(kinds, vec!["Working", "Tools", "Procedural", "Semantic", "Episodic"]);
            assert_eq!(sources[0].records.len(), 3);
            assert_eq!(sources[1].records.len(), 2);
            assert!(links.is_empty());
        },
        _ => panic!("Expected reflect result"),
    }
}

#[test]
fn forget_from_all_counts_every_kind() {
    let mut e = populated();
    store(&mut e, MemoryType::Episodic, "ev", obj(vec![("status", text("active"))]));
    let stmt = Statement::Forget(ForgetStmt {
        memory_type: AstMemoryType::All,
        conditions: vec![Condition::eq("status", Value::string("active"))],
        modifiers: Modifiers::default(),
    });
    let result = run(&mut e, stmt).unwrap();
    assert_eq!(result.get_count(), Some(2));
    assert_eq!(e.adb().count(MemoryType::Working), 2);
    assert_eq!(e.adb().count(MemoryType::Episodic), 0);
}

#[test]
fn lookup_from_all_is_not_planned() {
    let mut e = populated();
    let stmt = Statement::Lookup(LookupStmt {
        memory_type: AstMemoryType::All,
        predicate: Predicate::All,
        modifiers: Modifiers::default(),
    });
    assert!(matches!(run(&mut e, stmt), Err(ExecutorError::Planning(_))));
}

#[test]
fn pipeline_binds_variables_from_the_first_record() {
    let mut e = executor();
    store(&mut e, MemoryType::Working, "task-1", obj(vec![("owner", text("alice"))]));
    store(&mut e, MemoryType::Episodic, "ev-1", obj(vec![("user", text("alice"))]));
    store(&mut e, MemoryType::Episodic, "ev-2", obj(vec![("user", text("bob"))]));
    let first = Statement::Lookup(LookupStmt {
        memory_type: AstMemoryType::Working,
        predicate: Predicate::key("id", Value::string("task-1")),
        modifiers: Modifiers::default(),
    });
    let second = recall(
        AstMemoryType::Episodic,
        Predicate::where_eq("user", Value::Variable("owner".to_string())),
        Modifiers::default(),
    );
    let stmt = Statement::Pipeline(PipelineStmt { name: "p".to_string(), timeout: None, stages: vec![first, second] });
    let result = run(&mut e, stmt).unwrap();
    match result.data {
        ResultSet::Pipeline { steps } => {
            assert_eq!(steps.len(), 2);
            assert_eq!(record_ids(&steps[1].data), vec!["ev-1".to_string()]);
        },
        _ => panic!("Expected pipeline result"),
    }
}

#[test]
fn pipeline_reports_the_failing_stage() {
    let mut e = executor();
    let bad_link = Statement::Link(LinkStmt {
        from_type: AstMemoryType::Working,
        from_conditions: vec![],
        to_type: AstMemoryType::Working,
        to_conditions: vec![],
        link_type: "x".to_string(),
        weight: None,
    });
    let stmt = Statement::Pipeline(PipelineStmt {
        name: "p".to_string(),
        timeout: None,
        stages: vec![scan(None), bad_link],
    });
    match run(&mut e, stmt) {
        Err(ExecutorError::PipelineError { step, message }) => {
            assert_eq!(step, 1);
            assert_eq!(message, "Link validation failed: No source records found in Working matching predicate");
        },
        _ => panic!("the second stage fails"),
    }
}

#[test]
fn reflect_follows_links_to_targets() {
    let mut e = executor();
    store(&mut e, MemoryType::Semantic, "c-1", obj(vec![("topic", text("oom"))]));
    store(&mut e, MemoryType::Episodic, "inc-1", obj(vec![("pod", text("api"))]));
    store(&mut e, MemoryType::Working, "note", obj(vec![("n", num(1))]));
    e.adb_mut().link(MemoryType::Semantic, "c-1", MemoryType::Working, "note", "about", 0.5f32.to_bits());
    e.adb_mut().link(MemoryType::Semantic, "c-1", MemoryType::Episodic, "inc-1", "about", 0.5f32.to_bits());
    let stmt = Statement::Reflect(ReflectStmt {
        sources: vec![ReflectSource { memory_type: AstMemoryType::Semantic, predicate: None }],
        with_links: None,
        follow_links: Some(FollowLinks { link_type: "about".to_string(), depth: None }),
        then_clause: None,
    });
    let result = run(&mut e, stmt).unwrap();
    match result.data {
        ResultSet::Reflect { sources, links } => {
            let kinds: Vec<&str> = sources.iter().map(|s| s.memory_type.as_str()).collect();
            assert_eq!(kinds, vec!["Working", "Episodic"]);
            assert_eq!(links.len(), 2);
        },
        _ => panic!("Expected reflect result"),
    }
}

#[test]
fn executor_error_messages() {
    assert_eq!(ExecutorError::MissingData("key".to_string()).to_string(), "Missing required data: key");
    assert_eq!(
        ExecutorError::PipelineError { step: 3, message: "boom".to_string() }.to_string(),
        "Pipeline failed at step 3: boom"
    );
    assert_eq!(ExecutorError::UnsupportedOperation("LINK FROM ALL".to_string()).to_string(), "Unsupported operation: LINK FROM ALL");
}

/// `RECALL FROM WORKING WHERE status = "active"`
#[test]
fn test_recall_with_filter() {
    let mut e = populated();
    let result = run(
        &mut e,
        recall(AstMemoryType::Working, Predicate::where_eq("status", Value::string("active")), Modifiers::default()),
    )
    .unwrap();
    assert!(result.success);
    let records = result.get_records().unwrap();
    assert_eq!(records.len(), 1);
    assert_eq!(records[0].id, "task-1");
}

/// `RECALL FROM WORKING WHERE priority >= 0`
#[test]
fn test_recall_all() {
    let mut e = populated();
    let result = run(
        &mut e,
        recall(
            AstMemoryType::Working,
            Predicate::Where { conditions: vec![Condition::new("priority", Operator::Gte, Value::Int(0))] },
            Modifiers::default(),
        ),
    )
    .unwrap();
    assert!(result.success);
    assert_eq!(result.get_records().unwrap().len(), 3);
}

/// `LOOKUP FROM WORKING KEY id = "task-2"`
#[test]
fn test_lookup_by_key() {
    let mut e = populated();
    let stmt = Statement::Lookup(LookupStmt {
        memory_type: AstMemoryType::Working,
        predicate: Predicate::key("id", Value::string("task-2")),
        modifiers: Modifiers::default(),
    });
    let result = run(&mut e, stmt).unwrap();
    assert!(result.success);
    let records = result.get_records().unwrap();
    assert_eq!(records.len(), 1);
    assert_eq!(records[0].id, "task-2");
    assert_eq!(records[0].get_str("status"), Some("pending"));
}

/// `STORE INTO WORKING (key = "new-task", status = "created", priority = 1)`
#[test]
fn test_store_new_record() {
    let mut e = populated();
    let stmt = Statement::Store(StoreStmt {
        memory_type: AstMemoryType::Working,
        payload: vec![
            FieldAssignment { field: "key".to_string(), value: Value::string("new-task") },
            FieldAssignment { field: "status".to_string(), value: Value::string("created") },
            FieldAssignment { field: "priority".to_string(), value: Value::Int(1) },
        ],
        modifiers: Modifiers::default(),
    });
    let result = run(&mut e, stmt).unwrap();
    assert!(result.success);

    let scan_result = run(&mut e, scan(None)).unwrap();
    assert_eq!(scan_result.get_records().unwrap().len(), 4);
}

/// `FORGET FROM WORKING WHERE status = "completed"`
#[test]
fn test_forget_with_filter() {
    let mut e = populated();
    let stmt = Statement::Forget(ForgetStmt {
        memory_type: AstMemoryType::Working,
        conditions: vec![Condition::eq("status", Value::string("completed"))],
        modifiers: Modifiers::default(),
    });
    let result = run(&mut e, stmt).unwrap();
    assert!(result.success);
    assert_eq!(result.get_count(), Some(1));

    let scan_result = run(&mut e, scan(None)).unwrap();
    assert_eq!(scan_result.get_records().unwrap().len(), 2);
}

/// `PIPELINE test_pipe SCAN FROM WORKING LIMIT 1 | LOAD FROM TOOLS WHERE category = "file" LIMIT 1`
#[test]
fn test_pipeline_execution() {
    let mut e = populated();
    let stmt = Statement::Pipeline(PipelineStmt {
        name: "test_pipe".to_string(),
        timeout: None,
        stages: vec![
            scan(Some(1)),
            Statement::Load(LoadStmt {
                predicate: Predicate::where_eq("category", Value::string("file")),
                modifiers: Modifiers::with_limit(1),
            }),
        ],
    });
    let result = run(&mut e, stmt).unwrap();
    assert!(result.success);
    match result.data {
        ResultSet::Pipeline { steps } => {
            assert_eq!(steps.len(), 2);
            assert!(steps[0].success);
            assert!(steps[1].success);
        },
        _ => panic!("Expected pipeline result set"),
    }
}

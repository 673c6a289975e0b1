use agentdb::ast::{
    AstMemoryType, FieldAssignment, ForgetStmt, LoadStmt, LookupStmt, PipelineStmt, RecallStmt, ReflectSource, ReflectStmt,
    ScanStmt, Statement,
    StoreStmt,
};
use agentdb::memory::MemoryType;
use agentdb::plan::{ExecutionPlan, Operation};
use agentdb::planner::Planner;
use agentdb::predicate::{Condition, Modifiers, Predicate, Value};
use agentdb::time::Ttl;

fn limited(limit: usize) -> Modifiers {
    Modifiers::with_limit(limit)
}

/// `SCAN FROM WORKING LIMIT 10`
#[test]
fn test_plan_scan() {
    let stmt = Statement::Scan(ScanStmt { window: None, modifiers: limited(10) });
    let planner = Planner::new();
    let plan = planner.plan(stmt).unwrap();

    match plan {
        ExecutionPlan::Single(step) => {
            assert_eq!(step.operation, Operation::Scan);
            assert_eq!(step.memory_type, MemoryType::Working);
            assert_eq!(step.modifiers.limit, Some(10));
        },
        _ => panic!("Expected single step plan"),
    }
}

/// `RECALL FROM EPISODIC WHERE pod = "payments" LIMIT 5`
#[test]
fn test_plan_recall() {
    let stmt = Statement::Recall(RecallStmt {
        memory_type: AstMemoryType::Episodic,
        predicate: Predicate::where_eq("pod", Value::string("payments")),
        modifiers: limited(5),
    });
    let planner = Planner::new();
    let plan = planner.plan(stmt).unwrap();

    match plan {
        ExecutionPlan::Single(step) => {
            assert_eq!(step.operation, Operation::Recall);
            assert_eq!(step.memory_type, MemoryType::Episodic);
            assert_eq!(step.modifiers.limit, Some(5));
        },
        _ => panic!("Expected single step plan"),
    }
}

/// `LOOKUP FROM WORKING KEY id = "task-1"`
#[test]
fn test_plan_lookup() {
    let stmt = Statement::Lookup(LookupStmt {
        memory_type: AstMemoryType::Working,
        predicate: Predicate::key("id", Value::string("task-1")),
        modifiers: Modifiers::default(),
    });
    let planner = Planner::new();
    let plan = planner.plan(stmt).unwrap();

    match plan {
        ExecutionPlan::Single(step) => {
            assert_eq!(step.operation, Operation::Lookup);
            assert_eq!(step.memory_type, MemoryType::Working);
        },
        _ => panic!("Expected single step plan"),
    }
}

/// `LOAD FROM TOOLS WHERE category = "file" LIMIT 5`
#[test]
fn test_plan_load() {
    let stmt = Statement::Load(LoadStmt {
        predicate: Predicate::where_eq("category", Value::string("file")),
        modifiers: limited(5),
    });
    let planner = Planner::new();
    let plan = planner.plan(stmt).unwrap();

    match plan {
        ExecutionPlan::Single(step) => {
            assert_eq!(step.operation, Operation::Load);
            assert_eq!(step.memory_type, MemoryType::Tools);
        },
        _ => panic!("Expected single step plan"),
    }
}

/// `STORE INTO WORKING (key = "task-1", status = "pending")`
#[test]
fn test_plan_store() {
    let stmt = Statement::Store(StoreStmt {
        memory_type: AstMemoryType::Working,
        payload: vec![
            FieldAssignment { field: "key".to_string(), value: Value::string("task-1") },
            FieldAssignment { field: "status".to_string(), value: Value::string("pending") },
        ],
        modifiers: Modifiers::default(),
    });
    let planner = Planner::new();
    let plan = planner.plan(stmt).unwrap();

    match plan {
        ExecutionPlan::Single(step) => {
            assert_eq!(step.operation, Operation::Store);
            assert_eq!(step.memory_type, MemoryType::Working);
            assert!(step.data.is_some());
        },
        _ => panic!("Expected single step plan"),
    }
}

/// `FORGET FROM WORKING WHERE status = "completed"`
#[test]
fn test_plan_forget() {
    let stmt = Statement::Forget(ForgetStmt {
        memory_type: AstMemoryType::Working,
        conditions: vec![Condition::eq("status", Value::string("completed"))],
        modifiers: Modifiers::default(),
    });
    let planner = Planner::new();
    let plan = planner.plan(stmt).unwrap();

    match plan {
        ExecutionPlan::Single(step) => {
            assert_eq!(step.operation, Operation::Forget);
            assert_eq!(step.memory_type, MemoryType::Working);
        },
        _ => panic!("Expected single step plan"),
    }
}

/// `PIPELINE error_handler TIMEOUT 30s
///  RECALL FROM EPISODIC WHERE type = "error" LIMIT 10 | RECALL FROM PROCEDURAL PATTERN $error LIMIT 3`
#[test]
fn test_plan_pipeline() {
    let stmt = Statement::Pipeline(PipelineStmt {
        name: "error_handler".to_string(),
        timeout: Some(Ttl::from_secs(30)),
        stages: vec![
            Statement::Recall(RecallStmt {
                memory_type: AstMemoryType::Episodic,
                predicate: Predicate::where_eq("type", Value::string("error")),
                modifiers: limited(10),
            }),
            Statement::Recall(RecallStmt {
                memory_type: AstMemoryType::Procedural,
                predicate: Predicate::pattern("error", None),
                modifiers: limited(3),
            }),
        ],
    });
    let planner = Planner::new();
    let plan = planner.plan(stmt).unwrap();

    match plan {
        ExecutionPlan::Pipeline(p) => {
            assert_eq!(p.name, "error_handler");
            assert_eq!(p.stages.len(), 2);
        },
        _ => panic!("Expected pipeline plan"),
    }
}

/// A STORE without SCOPE or NAMESPACE gets the planner's defaults: the
/// private scope and no namespace; it goes to the kind it names.
#[test]
fn store_plan_carries_planner_defaults() {
    let stmt = Statement::Store(StoreStmt {
        memory_type: AstMemoryType::Episodic,
        payload: vec![FieldAssignment { field: "event".to_string(), value: Value::string("user_login") }],
        modifiers: Modifiers::default(),
    });
    match Planner::new().plan(stmt).unwrap() {
        ExecutionPlan::Single(step) => {
            assert_eq!(step.memory_type, MemoryType::Episodic);
            match step.data {
                Some(agentdb::json::Json::Object(m)) => {
                    let get = |k: &str| m.iter().find(|(key, _)| key == k).map(|(_, v)| v);
                    assert!(matches!(get("scope"), Some(agentdb::json::Json::String(s)) if s == "Private"));
                    assert!(matches!(get("namespace"), Some(agentdb::json::Json::Null)));
                    match get("key") {
                        Some(agentdb::json::Json::String(k)) => assert_eq!(k.len(), 36),
                        _ => panic!("a generated key"),
                    }
                },
                _ => panic!("store data is an object"),
            }
        },
        _ => panic!("Expected single step plan"),
    }
}

/// REFLECT FROM ALL becomes one source per memory kind, in order.
#[test]
fn reflect_from_all_expands_to_every_kind() {
    let stmt = Statement::Reflect(ReflectStmt {
        sources: vec![
            ReflectSource { memory_type: AstMemoryType::Working, predicate: None },
            ReflectSource { memory_type: AstMemoryType::All, predicate: None },
        ],
        with_links: None,
        follow_links: None,
        then_clause: None,
    });
    match Planner::new().plan(stmt).unwrap() {
        ExecutionPlan::Reflect(rp) => {
            let kinds: Vec<MemoryType> = rp.sources.iter().map(|s| s.memory_type).collect();
            assert_eq!(
                kinds,
                vec![
                    MemoryType::Working,
                    MemoryType::Working,
                    MemoryType::Tools,
                    MemoryType::Procedural,
                    MemoryType::Semantic,
                    MemoryType::Episodic
                ]
            );
            assert!(rp.link_options.is_none());
            assert!(rp.then_step.is_none());
        },
        _ => panic!("Expected reflect plan"),
    }
}

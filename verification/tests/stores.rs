use agentdb::episodic::EpisodicBackend;
use agentdb::json::{Json, Number};
use agentdb::link::LinkPredicate;
use agentdb::links::LinkStore;
use agentdb::memory::{MemoryRecord, MemoryType};
use agentdb::predicate::{
    AggregateFunc, AggregateFuncType, Condition, Modifiers, Predicate, Value, Window,
};
use agentdb::procedural::{ProceduralBackend, ProcedureNode};
use agentdb::scope::Scope;
use agentdb::semantic::SemanticBackend;
use agentdb::time::{Timestamp, Ttl};
use agentdb::tools::{ToolRecord, ToolsBackend};
use agentdb::working::WorkingBackend;

fn text(s: &str) -> Json {
    Json::String(s.to_string())
}

fn num(i: i64) -> Json {
    if i >= 0 {
        Json::Number(Number::PosInt(i as u64))
    } else {
        Json::Number(Number::NegInt(i))
    }
}

fn float(x: f64) -> Json {
    Json::Number(Number::Float(x.to_bits()))
}

fn obj(members: Vec<(&str, Json)>) -> Json {
    Json::Object(members.into_iter().map(|(k, v)| (k.to_string(), v)).collect())
}

fn texts(items: &[&str]) -> Json {
    Json::Array(items.iter().map(|s| text(s)).collect())
}

fn bits(x: f32) -> u32 {
    x.to_bits()
}

fn single(b: u32) -> f32 {
    f32::from_bits(b)
}

fn number(j: &Json) -> Option<f64> {
    match j {
        Json::Number(Number::PosInt(u)) => Some(*u as f64),
        Json::Number(Number::NegInt(i)) => Some(*i as f64),
        Json::Number(Number::Float(b)) => Some(f64::from_bits(*b)),
        _ => None,
    }
}

/// Reads a double from text, as its bit pattern.
fn parse(s: String) -> Option<u64> {
    s.parse::<f64>().ok().map(f64::to_bits)
}

/// A tool's load score for a task: ranking weighed with relevance.
fn weigh(ranking: u32, relevance: u32) -> u32 {
    (single(ranking) * 0.7 + single(relevance) * 0.3).to_bits()
}

/// `weight * decay + signal * (1 - decay)` in single precision.
fn blend(weight: u32, signal: u32, decay: u32) -> u32 {
    let (w, s, d) = (single(weight), single(signal), single(decay));
    (w * d + s * (1.0 - d)).to_bits()
}

/// The sum, mean, least or greatest of doubles (bit patterns).
fn reduce(func: AggregateFuncType, values: Vec<u64>) -> u64 {
    let xs: Vec<f64> = values.into_iter().map(f64::from_bits).collect();
    let x = match func {
        AggregateFuncType::Count => 0.0,
        AggregateFuncType::Sum => xs.iter().sum(),
        AggregateFuncType::Avg => xs.iter().sum::<f64>() / xs.len() as f64,
        AggregateFuncType::Min => xs.iter().cloned().fold(f64::INFINITY, f64::min),
        AggregateFuncType::Max => xs.iter().cloned().fold(f64::NEG_INFINITY, f64::max),
    };
    x.to_bits()
}

/// An instant, `millis` milliseconds after a fixed start.
fn at(millis: u32) -> Timestamp {
    Timestamp { secs: 1_700_000_000 + (millis / 1000) as i64, nanos: (millis % 1000) * 1_000_000 }
}

// ---------------------------------------------------------------------------
// Working memory
// ---------------------------------------------------------------------------

#[test]
fn working_test_store_and_lookup() {
    let mut backend = WorkingBackend::new();
    let record = backend.store("test-1", obj(vec![("key", text("value")), ("count", num(42))]), Scope::Private, None, None);

    assert_eq!(record.id, "test-1");
    assert_eq!(record.memory_type, MemoryType::Working);

    let results = backend.lookup(&Predicate::key("id", Value::string("test-1")), &Modifiers::default());
    assert_eq!(results.len(), 1);
    assert_eq!(results[0].get_str("key"), Some("value"));
    assert_eq!(results[0].get_i64("count"), Some(42));
}

#[test]
fn working_test_lookup_by_field() {
    let mut backend = WorkingBackend::new();
    backend.store("item-1", obj(vec![("pod", text("payments")), ("severity", num(3))]), Scope::Private, None, None);
    backend.store("item-2", obj(vec![("pod", text("auth")), ("severity", num(5))]), Scope::Private, None, None);
    backend.store("item-3", obj(vec![("pod", text("payments")), ("severity", num(7))]), Scope::Private, None, None);

    let results = backend.lookup(&Predicate::where_eq("pod", Value::string("payments")), &Modifiers::default());
    assert_eq!(results.len(), 2);
}

#[test]
fn working_test_scan_all() {
    let mut backend = WorkingBackend::new();
    for i in 0..10 {
        backend.store(&format!("item-{}", i), obj(vec![("index", num(i))]), Scope::Private, None, None);
    }

    let results = backend.scan(None);
    assert_eq!(results.len(), 10);
}

#[test]
fn test_scan_window_last_n() {
    let mut backend = WorkingBackend::new();
    for i in 0..10 {
        backend.store(&format!("item-{}", i), obj(vec![("index", num(i))]), Scope::Private, None, None);
    }

    let results = backend.scan(Some(&Window::last_n(3)));
    assert_eq!(results.len(), 3);
}

#[test]
fn working_test_forget() {
    let mut backend = WorkingBackend::new();
    backend.store("item-1", obj(vec![("temp", Json::Bool(true))]), Scope::Private, None, None);
    backend.store("item-2", obj(vec![("temp", Json::Bool(false))]), Scope::Private, None, None);
    backend.store("item-3", obj(vec![("temp", Json::Bool(true))]), Scope::Private, None, None);

    let count = backend.forget(&Predicate::where_eq("temp", Value::Bool(true)));
    assert_eq!(count, 2);
    assert_eq!(backend.count(), 1);
}

#[test]
fn working_test_update() {
    let mut backend = WorkingBackend::new();
    backend.store("item-1", obj(vec![("status", text("pending")), ("count", num(0))]), Scope::Private, None, None);

    let count = backend.update(
        &Predicate::key("id", Value::string("item-1")),
        &obj(vec![("status", text("completed")), ("count", num(5))]),
    );
    assert_eq!(count, 1);

    let results = backend.lookup(&Predicate::key("id", Value::string("item-1")), &Modifiers::default());
    assert_eq!(results[0].get_str("status"), Some("completed"));
    assert_eq!(results[0].get_i64("count"), Some(5));
}

/// A record stored with a 10 ms time to live is gone from lookups 50 ms
/// later (the clock is given explicitly in place of a sleep).
#[test]
fn test_ttl_expiration() {
    let mut backend = WorkingBackend::new();
    backend.store_at("expires", obj(vec![("temp", Json::Bool(true))]), Scope::Private, None, Some(Ttl::from_millis(10)), at(0));

    assert_eq!(backend.count(), 1);

    let later = at(50);
    let results = backend.lookup_at(&Predicate::key("id", Value::string("expires")), &Modifiers::default(), later);
    let non_expired: Vec<_> = results.into_iter().filter(|r| !r.is_expired_at(&later)).collect();
    assert_eq!(non_expired.len(), 0);
}

#[test]
fn working_test_order_by() {
    let mut backend = WorkingBackend::new();
    backend.store("a", obj(vec![("score", num(30))]), Scope::Private, None, None);
    backend.store("b", obj(vec![("score", num(10))]), Scope::Private, None, None);
    backend.store("c", obj(vec![("score", num(20))]), Scope::Private, None, None);

    let mods = Modifiers::default().order_by("score", true);
    let results = backend.lookup(&Predicate::all(), &mods);

    assert_eq!(results[0].get_i64("score"), Some(10));
    assert_eq!(results[1].get_i64("score"), Some(20));
    assert_eq!(results[2].get_i64("score"), Some(30));
}

#[test]
fn test_limit() {
    let mut backend = WorkingBackend::new();
    for i in 0..10 {
        backend.store(&format!("item-{}", i), obj(vec![("i", num(i))]), Scope::Private, None, None);
    }

    let results = backend.lookup(&Predicate::all(), &Modifiers::with_limit(3));
    assert_eq!(results.len(), 3);
}

#[test]
fn working_test_clear() {
    let mut backend = WorkingBackend::new();
    for i in 0..5 {
        backend.store(&format!("item-{}", i), obj(vec![("i", num(i))]), Scope::Private, None, None);
    }
    assert_eq!(backend.count(), 5);

    backend.clear();
    assert_eq!(backend.count(), 0);
}

/// An update does not reach a record whose time to live has run out.
#[test]
fn test_update_expired_record() {
    let mut backend = WorkingBackend::new();
    backend.store_at(
        "ttl-item",
        obj(vec![("status", text("active")), ("value", num(100))]),
        Scope::Private,
        None,
        Some(Ttl::from_millis(10)),
        at(0),
    );

    let results = backend.lookup_at(&Predicate::key("id", Value::string("ttl-item")), &Modifiers::default(), at(1));
    assert_eq!(results.len(), 1);

    let later = at(50);
    let update_count = backend.update_at(
        &Predicate::key("id", Value::string("ttl-item")),
        &obj(vec![("status", text("updated")), ("value", num(200))]),
        later,
    );
    assert_eq!(update_count, 0, "Should not update expired record");

    let results = backend.lookup_at(&Predicate::key("id", Value::string("ttl-item")), &Modifiers::default(), later);
    let non_expired: Vec<_> = results.into_iter().filter(|r| !r.is_expired_at(&later)).collect();
    assert_eq!(non_expired.len(), 0, "Expired record should not be returned");
}

#[test]
fn test_update_non_expired_record() {
    let mut backend = WorkingBackend::new();
    backend.store("normal-item", obj(vec![("status", text("active")), ("value", num(100))]), Scope::Private, None, None);

    let update_count = backend.update(
        &Predicate::key("id", Value::string("normal-item")),
        &obj(vec![("status", text("updated")), ("value", num(200))]),
    );
    assert_eq!(update_count, 1, "Should update non-expired record");

    let results = backend.lookup(&Predicate::key("id", Value::string("normal-item")), &Modifiers::default());
    assert_eq!(results.len(), 1);
    assert_eq!(results[0].get_str("status"), Some("updated"));
    assert_eq!(results[0].get_i64("value"), Some(200));
}

// ---------------------------------------------------------------------------
// Episodic memory
// ---------------------------------------------------------------------------

#[test]
fn episodic_test_store_and_lookup() {
    let mut backend = EpisodicBackend::new();
    let record = backend.store("event-1", obj(vec![("event_type", text("login")), ("user", text("alice"))]), Scope::Private, None, None);

    assert_eq!(record.id, "event-1");
    assert_eq!(backend.count(), 1);

    let results = backend.lookup(
        &Predicate::Key { field: "id".to_string(), value: Value::String("event-1".to_string()) },
        &Modifiers::default(),
    );
    assert_eq!(results.len(), 1);
    assert_eq!(results[0].get_str("event_type"), Some("login"));
}

/// Events stored 10 ms apart come back newest first (the instants are
/// given explicitly in place of sleeps).
#[test]
fn test_temporal_ordering() {
    let mut backend = EpisodicBackend::new();
    for i in 0..5 {
        backend.store_at(&format!("event-{}", i), obj(vec![("seq", num(i))]), Scope::Private, None, None, at(10 * i as u32));
    }

    let results = backend.lookup_at(&Predicate::All, &Modifiers::default(), at(100));
    assert_eq!(results.len(), 5);
    assert_eq!(results[0].get_i64("seq"), Some(4));
    assert_eq!(results[4].get_i64("seq"), Some(0));
}

#[test]
fn test_window_last_n() {
    let mut backend = EpisodicBackend::new();
    for i in 0..10 {
        backend.store_at(&format!("event-{}", i), obj(vec![("seq", num(i))]), Scope::Private, None, None, at(5 * i as u32));
    }

    let results = backend.get_window_at(&Window::LastN { count: 3 }, at(100));
    assert_eq!(results.len(), 3);
}

#[test]
fn test_window_top_by() {
    let mut backend = EpisodicBackend::new();
    backend.store("e1", obj(vec![("score", num(10))]), Scope::Private, None, None);
    backend.store("e2", obj(vec![("score", num(50))]), Scope::Private, None, None);
    backend.store("e3", obj(vec![("score", num(30))]), Scope::Private, None, None);

    let results = backend.get_window(&Window::TopBy { count: 2, field: "score".to_string() });
    assert_eq!(results.len(), 2);
    assert_eq!(results[0].get_i64("score"), Some(50));
    assert_eq!(results[1].get_i64("score"), Some(30));
}

#[test]
fn episodic_test_forget() {
    let mut backend = EpisodicBackend::new();
    for i in 0..5 {
        let kind = if i % 2 == 0 { "a" } else { "b" };
        backend.store(&format!("event-{}", i), obj(vec![("type", text(kind))]), Scope::Private, None, None);
    }
    assert_eq!(backend.count(), 5);

    let count = backend.forget(&Predicate::Where { conditions: vec![Condition::eq("type", Value::string("a"))] });
    assert_eq!(count, 3);
    assert_eq!(backend.count(), 2);
}

#[test]
fn episodic_test_update() {
    let mut backend = EpisodicBackend::new();
    backend.store("event-1", obj(vec![("status", text("pending")), ("value", num(100))]), Scope::Private, None, None);

    let count = backend.update(
        &Predicate::Key { field: "id".to_string(), value: Value::String("event-1".to_string()) },
        &obj(vec![("status", text("completed"))]),
    );
    assert_eq!(count, 1);

    let results = backend.lookup(&Predicate::All, &Modifiers::default());
    assert_eq!(results[0].get_str("status"), Some("completed"));
    assert_eq!(results[0].get_i64("value"), Some(100));
}

#[test]
fn test_aggregation() {
    let mut backend = EpisodicBackend::new();
    for i in 0..5 {
        backend.store(&format!("event-{}", i), obj(vec![("value", num((i + 1) * 10))]), Scope::Private, None, None);
    }

    let records = backend.lookup(&Predicate::All, &Modifiers::default());
    let funcs = vec![
        AggregateFunc { func: AggregateFuncType::Count, field: None, alias: Some("total".to_string()) },
        AggregateFunc { func: AggregateFuncType::Sum, field: Some("value".to_string()), alias: Some("sum_value".to_string()) },
        AggregateFunc { func: AggregateFuncType::Avg, field: Some("value".to_string()), alias: Some("avg_value".to_string()) },
    ];

    let result = backend.aggregate(&records, &funcs, &parse, &reduce);
    assert_eq!(result.get("total").and_then(|j| j.as_i64()), Some(5));
    assert_eq!(result.get("sum_value").and_then(number), Some(150.0));
    assert_eq!(result.get("avg_value").and_then(number), Some(30.0));
}

#[test]
fn episodic_test_clear() {
    let mut backend = EpisodicBackend::new();
    for i in 0..5 {
        backend.store(&format!("event-{}", i), obj(vec![("seq", num(i))]), Scope::Private, None, None);
    }
    assert_eq!(backend.count(), 5);

    backend.clear();
    assert_eq!(backend.count(), 0);
}

#[test]
fn episodic_test_lookup_by_field() {
    let mut backend = EpisodicBackend::new();
    backend.store("e1", obj(vec![("pod", text("payments")), ("severity", num(3))]), Scope::Private, None, None);
    backend.store("e2", obj(vec![("pod", text("auth")), ("severity", num(5))]), Scope::Private, None, None);
    backend.store("e3", obj(vec![("pod", text("payments")), ("severity", num(7))]), Scope::Private, None, None);

    let results = backend.lookup(
        &Predicate::Where { conditions: vec![Condition::eq("pod", Value::string("payments"))] },
        &Modifiers::default(),
    );
    assert_eq!(results.len(), 2);
}

#[test]
fn episodic_test_order_by() {
    let mut backend = EpisodicBackend::new();
    backend.store("e1", obj(vec![("score", num(30))]), Scope::Private, None, None);
    backend.store("e2", obj(vec![("score", num(10))]), Scope::Private, None, None);
    backend.store("e3", obj(vec![("score", num(50))]), Scope::Private, None, None);

    let results = backend.lookup(&Predicate::All, &Modifiers::default().order_by("score", false));
    assert_eq!(results[0].get_i64("score"), Some(50));
    assert_eq!(results[1].get_i64("score"), Some(30));
    assert_eq!(results[2].get_i64("score"), Some(10));
}

#[test]
fn episodic_test_update_existing_record() {
    let mut backend = EpisodicBackend::new();
    backend.store("event-1", obj(vec![("v", num(1))]), Scope::Private, None, None);
    backend.store("event-1", obj(vec![("v", num(2))]), Scope::Private, None, None);

    assert_eq!(backend.count(), 1);

    let results = backend.lookup(&Predicate::All, &Modifiers::default());
    assert_eq!(results[0].get_i64("v"), Some(2));
}

// ---------------------------------------------------------------------------
// Semantic memory
// ---------------------------------------------------------------------------

fn create_test_record(key: &str) -> MemoryRecord {
    MemoryRecord::new(key, MemoryType::Semantic, obj(vec![("name", text(key)), ("category", text("test"))]), Scope::Private)
}

fn create_random_embedding(dimensions: usize) -> Vec<u32> {
    (0..dimensions).map(|i| (i as f32 * std::f32::consts::PI / dimensions as f32).sin().to_bits()).collect()
}

#[test]
fn semantic_test_store_and_lookup() {
    let mut backend = SemanticBackend::with_dimensions(128);
    let record = backend.store("doc-1", obj(vec![("name", text("test"))]), Scope::Private, None, None);
    assert_eq!(record.id, "doc-1");

    let results = backend.lookup(
        &Predicate::Key { field: "id".to_string(), value: Value::String("doc-1".to_string()) },
        &Modifiers::default(),
    );
    assert_eq!(results.len(), 1);
    assert_eq!(results[0].id, "doc-1");
}

#[test]
fn semantic_test_forget() {
    let mut backend = SemanticBackend::with_dimensions(128);
    for i in 0..5 {
        backend.store_with_embedding(create_test_record(&format!("doc-{}", i)), create_random_embedding(128)).unwrap();
    }
    assert_eq!(backend.count(), 5);

    let count = backend.forget(&Predicate::All);
    assert_eq!(count, 5);
    assert_eq!(backend.count(), 0);
}

#[test]
fn semantic_test_update() {
    let mut backend = SemanticBackend::with_dimensions(128);
    backend.store("doc-1", obj(vec![("name", text("test")), ("version", num(1))]), Scope::Private, None, None);

    let count = backend.update(
        &Predicate::Key { field: "id".to_string(), value: Value::String("doc-1".to_string()) },
        &obj(vec![("version", num(2))]),
    );
    assert_eq!(count, 1);

    let results = backend.lookup(&Predicate::All, &Modifiers::default());
    assert_eq!(results[0].get_i64("version"), Some(2));
}

#[test]
fn semantic_test_clear() {
    let mut backend = SemanticBackend::with_dimensions(128);
    for i in 0..5 {
        backend.store_with_embedding(create_test_record(&format!("doc-{}", i)), create_random_embedding(128)).unwrap();
    }
    assert_eq!(backend.count(), 5);

    backend.clear();
    assert_eq!(backend.count(), 0);
}

// ---------------------------------------------------------------------------
// Tools memory
// ---------------------------------------------------------------------------

fn create_test_tool(id: &str, ranking: f32) -> ToolRecord {
    let mut tool = ToolRecord::new(
        id,
        &format!("Tool {}", id),
        &format!("Description for {}", id),
        obj(vec![("type", text("object"))]),
        "test",
    );
    tool.ranking = bits(ranking);
    tool
}

#[test]
fn tools_test_store_and_lookup() {
    let mut backend = ToolsBackend::new();
    let record = backend.store(
        "read-file",
        obj(vec![
            ("name", text("Read File")),
            ("description", text("Reads contents of a file")),
            (
                "schema",
                obj(vec![("type", text("object")), ("properties", obj(vec![("path", obj(vec![("type", text("string"))]))]))]),
            ),
            ("category", text("file")),
        ]),
        Scope::Shared,
        None,
        None,
    );
    assert_eq!(record.id, "read-file");

    let results = backend.lookup(&Predicate::key("id", Value::string("read-file")), &Modifiers::default());
    assert_eq!(results.len(), 1);
}

#[test]
fn test_load_ranked() {
    let mut backend = ToolsBackend::new();
    backend.register(create_test_tool("tool-a", 0.3));
    backend.register(create_test_tool("tool-b", 0.9));
    backend.register(create_test_tool("tool-c", 0.6));

    let results = backend.load(&Predicate::all(), &Modifiers::with_limit(3), &weigh);
    assert_eq!(results.len(), 3);
    assert_eq!(results[0].id, "tool-b");
    assert_eq!(results[1].id, "tool-c");
    assert_eq!(results[2].id, "tool-a");
}

#[test]
fn test_load_with_limit() {
    let mut backend = ToolsBackend::new();
    for i in 0..10 {
        backend.register(create_test_tool(&format!("tool-{}", i), i as f32 / 10.0));
    }

    let results = backend.load(&Predicate::all(), &Modifiers::with_limit(3), &weigh);
    assert_eq!(results.len(), 3);
}

#[test]
fn test_update_ranking() {
    let mut backend = ToolsBackend::new();
    backend.register(create_test_tool("test-tool", 0.5));

    assert!(backend.update_ranking("test-tool", bits(1.0), &blend));

    let tool = backend.get("test-tool").unwrap();
    assert!((single(tool.ranking) - 0.55).abs() < 0.001);
    assert_eq!(tool.call_count, 1);
    assert!(tool.last_called.is_some());
}

#[test]
fn test_filter_by_category() {
    let mut backend = ToolsBackend::new();
    backend.store(
        "file-read",
        obj(vec![("name", text("Read")), ("category", text("file")), ("description", text(""))]),
        Scope::Shared,
        None,
        None,
    );
    backend.store(
        "http-get",
        obj(vec![("name", text("GET")), ("category", text("network")), ("description", text(""))]),
        Scope::Shared,
        None,
        None,
    );

    let results = backend.load(&Predicate::where_eq("category", Value::string("file")), &Modifiers::default(), &weigh);
    assert_eq!(results.len(), 1);
    assert_eq!(results[0].id, "file-read");
}

#[test]
fn test_forget_tools() {
    let mut backend = ToolsBackend::new();
    backend.register(create_test_tool("tool-1", 0.5));
    backend.register(create_test_tool("tool-2", 0.5));
    backend.register(create_test_tool("tool-3", 0.5));

    let count = backend.forget(&Predicate::key("id", Value::string("tool-2")));
    assert_eq!(count, 1);
    assert_eq!(backend.count(), 2);
    assert!(backend.get("tool-2").is_none());
}

// ---------------------------------------------------------------------------
// Procedural memory
// ---------------------------------------------------------------------------

#[test]
fn procedural_test_store_and_lookup() {
    let mut backend = ProceduralBackend::new();
    let record = backend.store(
        "oom-fix",
        obj(vec![
            ("pattern", text("OOMKilled container restart")),
            ("steps", texts(&["Check memory limits", "Increase if needed", "Restart pod"])),
            ("severity", text("critical")),
            ("source", text("runbook")),
        ]),
        Scope::Shared,
        None,
        None,
        &parse,
    );
    assert_eq!(record.id, "oom-fix");

    let results = backend.lookup(&Predicate::key("id", Value::string("oom-fix")), &Modifiers::default());
    assert_eq!(results.len(), 1);
}

#[test]
fn test_pattern_matching() {
    let mut backend = ProceduralBackend::new();
    backend.store(
        "oom-fix",
        obj(vec![("pattern", text("OOMKilled container memory exceeded")), ("steps", texts(&["Check limits"]))]),
        Scope::Shared,
        None,
        None,
        &parse,
    );
    backend.store(
        "cpu-throttle",
        obj(vec![("pattern", text("CPU throttling high utilization")), ("steps", texts(&["Check CPU limits"]))]),
        Scope::Shared,
        None,
        None,
        &parse,
    );

    let results = backend.lookup(&Predicate::pattern("OOMKilled container", Some(bits(0.5))), &Modifiers::default());
    assert_eq!(results.len(), 1);
    assert_eq!(results[0].id, "oom-fix");
}

#[test]
fn test_graph_edges() {
    let mut backend = ProceduralBackend::new();
    backend.add_procedure(ProcedureNode::new("step-1", "Check logs", vec!["kubectl logs".to_string()]));
    backend.add_procedure(ProcedureNode::new("step-2", "Restart pod", vec!["kubectl delete pod".to_string()]));
    backend.add_procedure(ProcedureNode::new("step-3", "Verify", vec!["kubectl get pods".to_string()]));

    backend.add_edge("step-1", "step-2", "next", bits(1.0));
    backend.add_edge("step-2", "step-3", "next", bits(1.0));

    let deps = backend.get_dependencies("step-1", "next");
    assert_eq!(deps.len(), 1);
    assert_eq!(deps[0].pattern_id, "step-2");

    let deps = backend.get_dependencies("step-2", "next");
    assert_eq!(deps.len(), 1);
    assert_eq!(deps[0].pattern_id, "step-3");
}

#[test]
fn test_update_procedure() {
    let mut backend = ProceduralBackend::new();
    backend.store(
        "test-proc",
        obj(vec![("pattern", text("test pattern")), ("steps", texts(&["step 1"])), ("confidence", float(0.5))]),
        Scope::Shared,
        None,
        None,
        &parse,
    );

    backend.update(
        &Predicate::key("id", Value::string("test-proc")),
        &obj(vec![("confidence", float(0.9)), ("steps", texts(&["step 1", "step 2"]))]),
        &parse,
    );

    let proc = backend.get("test-proc").unwrap();
    assert!((single(proc.confidence) - 0.9).abs() < 0.01);
    assert_eq!(proc.steps.len(), 2);
}

#[test]
fn test_success_failure_tracking() {
    let mut proc = ProcedureNode::new("test", "test", vec![]);
    proc.record_success();
    proc.record_success();
    proc.record_failure();

    assert!((single(proc.success_rate()) - 0.667).abs() < 0.01);
}

#[test]
fn test_variables() {
    let mut backend = ProceduralBackend::new();
    backend.store(
        "parameterized",
        obj(vec![
            ("pattern", text("scale deployment")),
            ("steps", texts(&["kubectl scale"])),
            ("variables", obj(vec![("min_replicas", float(2.0)), ("max_replicas", float(10.0))])),
        ]),
        Scope::Shared,
        None,
        None,
        &parse,
    );

    let proc = backend.get("parameterized").unwrap();
    let var = |name: &str| proc.variables.iter().find(|(k, _)| k == name).map(|(_, v)| f64::from_bits(*v));
    assert_eq!(var("min_replicas"), Some(2.0));
    assert_eq!(var("max_replicas"), Some(10.0));
}

// ---------------------------------------------------------------------------
// Links
// ---------------------------------------------------------------------------

#[test]
fn test_create_link() {
    let mut store = LinkStore::new();
    let link = store.link(MemoryType::Procedural, "oom-fix", MemoryType::Episodic, "inc-001", "applied_to", bits(0.95));

    assert_eq!(link.from_type, MemoryType::Procedural);
    assert_eq!(link.from_id, "oom-fix");
    assert_eq!(link.to_type, MemoryType::Episodic);
    assert_eq!(link.to_id, "inc-001");
    assert_eq!(link.link_type, "applied_to");
    assert!((single(link.weight) - 0.95).abs() < 0.001);
}

#[test]
fn test_get_links_from() {
    let mut store = LinkStore::new();
    store.link(MemoryType::Procedural, "pattern-1", MemoryType::Episodic, "inc-001", "applied_to", bits(0.9));
    store.link(MemoryType::Procedural, "pattern-1", MemoryType::Episodic, "inc-002", "applied_to", bits(0.8));
    store.link(MemoryType::Procedural, "pattern-2", MemoryType::Episodic, "inc-003", "applied_to", bits(0.7));

    let links = store.get_links_from(MemoryType::Procedural, "pattern-1", None);
    assert_eq!(links.len(), 2);
}

#[test]
fn test_get_links_to() {
    let mut store = LinkStore::new();
    store.link(MemoryType::Semantic, "concept-1", MemoryType::Procedural, "pattern-1", "triggers", bits(0.8));
    store.link(MemoryType::Semantic, "concept-2", MemoryType::Procedural, "pattern-1", "triggers", bits(0.7));

    let links = store.get_links_to(MemoryType::Procedural, "pattern-1", Some("triggers"));
    assert_eq!(links.len(), 2);
}

#[test]
fn test_update_weight() {
    let mut store = LinkStore::new();
    let link = store.link(MemoryType::Procedural, "test", MemoryType::Episodic, "test", "applied_to", bits(0.5));

    store.update_weight(&link.id, bits(0.9));

    let links = store.get_links_from(MemoryType::Procedural, "test", None);
    assert!((single(links[0].weight) - 0.9).abs() < 0.001);
}

#[test]
fn test_update_weight_with_signal() {
    let mut store = LinkStore::new();
    let link = store.link(MemoryType::Procedural, "test", MemoryType::Episodic, "test", "applied_to", bits(0.5));

    store.update_weight_with_signal(&link.id, bits(1.0), bits(0.9), &blend);

    let links = store.get_links_from(MemoryType::Procedural, "test", None);
    // 0.5 * 0.9 + 1.0 * 0.1 = 0.55
    assert!((single(links[0].weight) - 0.55).abs() < 0.001);
}

#[test]
fn test_forget_links() {
    let mut store = LinkStore::new();
    store.link(MemoryType::Procedural, "p1", MemoryType::Episodic, "e1", "applied_to", bits(0.9));
    store.link(MemoryType::Procedural, "p1", MemoryType::Episodic, "e2", "applied_to", bits(0.8));
    store.link(MemoryType::Semantic, "s1", MemoryType::Procedural, "p1", "triggers", bits(0.7));
    assert_eq!(store.count(), 3);

    let pred = LinkPredicate::from_record(MemoryType::Procedural, "p1");
    let count = store.forget_links(&pred);
    assert_eq!(count, 2);
    assert_eq!(store.count(), 1);
}

#[test]
fn test_type_stats() {
    let mut store = LinkStore::new();
    store.link(MemoryType::Procedural, "p1", MemoryType::Episodic, "e1", "applied_to", bits(0.9));
    store.link(MemoryType::Procedural, "p2", MemoryType::Episodic, "e2", "applied_to", bits(0.8));
    store.link(MemoryType::Semantic, "s1", MemoryType::Procedural, "p1", "triggers", bits(0.7));

    let stats = store.type_stats();
    let of = |t: &str| stats.iter().find(|(k, _)| k == t).map(|(_, n)| *n);
    assert_eq!(of("applied_to"), Some(2));
    assert_eq!(of("triggers"), Some(1));
}

/// Aggregates without a field give null, SUM over no values gives zero,
/// texts that read as numbers count, and a later aggregate under a used
/// name replaces the earlier one in place.
#[test]
fn aggregation_edge_cases() {
    let mut backend = EpisodicBackend::new();
    backend.store("e1", obj(vec![("v", text("2.5")), ("w", text("n/a"))]), Scope::Private, None, None);
    backend.store("e2", obj(vec![("v", num(4)), ("w", Json::Bool(true))]), Scope::Private, None, None);
    let records = backend.lookup(&Predicate::All, &Modifiers::default());

    let funcs = vec![
        AggregateFunc { func: AggregateFuncType::Max, field: None, alias: None },
        AggregateFunc { func: AggregateFuncType::Sum, field: Some("w".to_string()), alias: Some("sum_w".to_string()) },
        AggregateFunc { func: AggregateFuncType::Avg, field: Some("w".to_string()), alias: Some("avg_w".to_string()) },
        AggregateFunc { func: AggregateFuncType::Sum, field: Some("v".to_string()), alias: None },
        AggregateFunc { func: AggregateFuncType::Count, field: Some("v".to_string()), alias: Some("max".to_string()) },
    ];
    let result = backend.aggregate(&records, &funcs, &parse, &reduce);
    match &result {
        Json::Object(m) => {
            let keys: Vec<&str> = m.iter().map(|(k, _)| k.as_str()).collect();
            assert_eq!(keys, vec!["max", "sum_w", "avg_w", "sum"]);
            assert_eq!(m[0].1.as_i64(), Some(2));
            assert_eq!(m[1].1.as_i64(), Some(0));
            assert!(matches!(m[2].1, Json::Null));
            assert_eq!(number(&m[3].1), Some(6.5));
        },
        _ => panic!("an object"),
    }
}

/// A TOP window on a lookup keeps the events with the greatest values,
/// greatest first.
#[test]
fn lookup_top_window_keeps_the_greatest() {
    let mut backend = EpisodicBackend::new();
    backend.store("e1", obj(vec![("score", num(10))]), Scope::Private, None, None);
    backend.store("e2", obj(vec![("score", num(50))]), Scope::Private, None, None);
    backend.store("e3", obj(vec![("score", num(30))]), Scope::Private, None, None);

    let mut m = Modifiers::default();
    m.window = Some(Window::top_by(2, "score"));
    m = m.order_by("score", false);
    let results = backend.lookup(&Predicate::All, &m);
    assert_eq!(results.len(), 2);
    assert_eq!(results[0].get_i64("score"), Some(50));
    assert_eq!(results[1].get_i64("score"), Some(30));
}

/// Link ids are hyphenated version-4 UUIDs in lower case.
#[test]
fn link_ids_are_v4_uuids() {
    let mut store = LinkStore::new();
    let link = store.link(MemoryType::Working, "a", MemoryType::Tools, "b", "uses", bits(1.0));
    let id: Vec<char> = link.id.chars().collect();
    assert_eq!(id.len(), 36);
    for (i, c) in id.iter().enumerate() {
        if [8, 13, 18, 23].contains(&i) {
            assert_eq!(*c, '-');
        } else {
            assert!(c.is_ascii_digit() || ('a'..='f').contains(c));
        }
    }
    assert_eq!(id[14], '4');
    assert!(['8', '9', 'a', 'b'].contains(&id[19]));
}

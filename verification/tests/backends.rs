use agentdb::adb::Adb;
use agentdb::config::AdbConfig;
use agentdb::episodic::EpisodicBackend;
use agentdb::json::{Json, Number};
use agentdb::link::LinkPredicate;
use agentdb::memory::{MemoryRecord, MemoryType};
use agentdb::predicate::{Condition, Modifiers, Operator, Predicate, Value, Window};
use agentdb::procedural::{ProceduralBackend, ProcedureNode};
use agentdb::scope::Scope;
use agentdb::semantic::{SemanticBackend, DEFAULT_DIMENSIONS};
use agentdb::time::{Timestamp, Ttl};
use agentdb::tools::{ToolRecord, ToolsBackend};
use agentdb::working::WorkingBackend;

fn text(s: &str) -> Json {
    Json::String(s.to_string())
}

fn num(i: i64) -> Json {
    if i >= 0 {
        Json::Number(Number::PosInt(i as u64))
    } else {
        Json::Number(Number::NegInt(i))
    }
}

fn float(x: f64) -> Json {
    Json::Number(Number::Float(x.to_bits()))
}

fn obj(members: Vec<(&str, Json)>) -> Json {
    Json::Object(members.into_iter().map(|(k, v)| (k.to_string(), v)).collect())
}

fn texts(items: &[&str]) -> Json {
    Json::Array(items.iter().map(|s| text(s)).collect())
}

fn bits(x: f32) -> u32 {
    x.to_bits()
}

/// Reads a double from text, as its bit pattern.
fn parse(s: String) -> Option<u64> {
    s.parse::<f64>().ok().map(f64::to_bits)
}

/// A tool's load score for a task: ranking weighed with relevance.
fn weigh(ranking: u32, relevance: u32) -> u32 {
    (f32::from_bits(ranking) * 0.7 + f32::from_bits(relevance) * 0.3).to_bits()
}

/// `weight * decay + signal * (1 - decay)` in single precision.
fn blend(weight: u32, signal: u32, decay: u32) -> u32 {
    let (w, s, d) = (f32::from_bits(weight), f32::from_bits(signal), f32::from_bits(decay));
    (w * d + s * (1.0 - d)).to_bits()
}

fn embedding(width: usize, seed: u32) -> Vec<u32> {
    (0..width).map(|i| (((i as u32).wrapping_mul(31).wrapping_add(seed) % 97) as f32 / 97.0).to_bits()).collect()
}

fn semantic_record(id: &str) -> MemoryRecord {
    MemoryRecord::new(id, MemoryType::Semantic, obj(vec![("name", text(id))]), Scope::Private)
}

#[test]
fn test_default_config() {
    let config = AdbConfig::default();
    assert_eq!(config.default_scope, Scope::Private);
    assert!(config.working.ttl_enabled);
    assert!((f32::from_bits(config.tools.decay_factor) - 0.9).abs() < 0.01);
}

#[test]
fn test_builder() {
    let config = AdbConfig::builder().default_scope(Scope::Shared).default_namespace("agent-k8s").ttl_enabled(false).build();

    assert_eq!(config.default_scope, Scope::Shared);
    assert_eq!(config.default_namespace, Some("agent-k8s".to_string()));
    assert!(!config.working.ttl_enabled);
}

#[test]
fn episodic_test_create_backend() {
    let backend = EpisodicBackend::new();
    assert_eq!(backend.memory_type(), MemoryType::Episodic);
}

#[test]
fn episodic_test_backend_info() {
    let backend = EpisodicBackend::new();
    let info = backend.info();

    assert_eq!(info.memory_type, MemoryType::Episodic);
    assert!(!info.supports_embedding);
    assert!(!info.supports_scan);
}

#[test]
fn semantic_test_create_backend() {
    let backend = SemanticBackend::new();
    assert_eq!(backend.dimensions(), DEFAULT_DIMENSIONS);
    assert_eq!(backend.memory_type(), MemoryType::Semantic);
}

#[test]
fn test_custom_dimensions() {
    let backend = SemanticBackend::with_dimensions(768);
    assert_eq!(backend.dimensions(), 768);
}

#[test]
fn test_store_with_embedding() {
    let mut backend = SemanticBackend::with_dimensions(128);
    let result = backend.store_with_embedding(semantic_record("doc-1"), embedding(128, 1));
    assert!(result.is_ok());
    assert_eq!(backend.count(), 1);
}

#[test]
fn test_embedding_dimension_mismatch() {
    let mut backend = SemanticBackend::with_dimensions(128);
    let result = backend.store_with_embedding(semantic_record("doc-1"), embedding(256, 1));
    assert!(result.is_err());
    assert_eq!(backend.count(), 0);
}

#[test]
fn test_get_embedding() {
    let mut backend = SemanticBackend::with_dimensions(128);
    let e = embedding(128, 3);
    backend.store_with_embedding(semantic_record("doc-1"), e.clone()).unwrap();

    let retrieved = backend.get_embedding("doc-1");
    assert!(retrieved.is_some());
    assert_eq!(retrieved.unwrap(), e);

    assert!(backend.get_embedding("nonexistent").is_none());
}

#[test]
fn semantic_test_update_existing_record() {
    let mut backend = SemanticBackend::with_dimensions(128);
    let (first_id, existed) = backend.store_with_embedding(semantic_record("doc-1"), embedding(128, 1)).unwrap();
    assert!(!existed);

    let record2 = MemoryRecord::new(
        "doc-1",
        MemoryType::Semantic,
        obj(vec![("name", text("doc-1")), ("version", num(2))]),
        Scope::Private,
    );
    let e2 = embedding(128, 2);
    let (second_id, existed) = backend.store_with_embedding(record2, e2.clone()).unwrap();
    assert!(existed);
    assert_eq!(first_id, second_id);

    assert_eq!(backend.count(), 1);
    assert_eq!(backend.get_embedding("doc-1").unwrap(), e2);
}

#[test]
fn semantic_test_backend_info() {
    let backend = SemanticBackend::with_dimensions(128);
    let info = backend.info();

    assert_eq!(info.memory_type, MemoryType::Semantic);
    assert!(info.supports_embedding);
    assert!(!info.supports_scan);
}

#[test]
fn semantic_test_lookup_by_field() {
    let mut backend = SemanticBackend::with_dimensions(128);
    backend.store("doc-1", obj(vec![("category", text("a")), ("value", num(1))]), Scope::Private, None, None);
    backend.store("doc-2", obj(vec![("category", text("b")), ("value", num(2))]), Scope::Private, None, None);
    backend.store("doc-3", obj(vec![("category", text("a")), ("value", num(3))]), Scope::Private, None, None);

    let results = backend.lookup(
        &Predicate::Where {
            conditions: vec![Condition { field: "category".to_string(), operator: Operator::Eq, value: Value::string("a") }],
        },
        &Modifiers::default(),
    );
    assert_eq!(results.len(), 2);
}

#[test]
fn test_create_adb() {
    let adb = Adb::new();
    assert_eq!(adb.count(MemoryType::Working), 0);
    assert_eq!(adb.count(MemoryType::Tools), 0);
    assert_eq!(adb.count(MemoryType::Procedural), 0);
}

#[test]
fn test_store_and_lookup_working() {
    let mut adb = Adb::new();
    adb.store(MemoryType::Working, "task-1", obj(vec![("status", text("pending")), ("priority", num(5))]), &parse);

    let results = adb.lookup(MemoryType::Working, &Predicate::key("id", Value::string("task-1")));
    assert_eq!(results.len(), 1);
    assert_eq!(results[0].get_str("status"), Some("pending"));
}

#[test]
fn test_store_and_load_tools() {
    let mut adb = Adb::new();
    adb.store(
        MemoryType::Tools,
        "read-file",
        obj(vec![
            ("name", text("Read File")),
            ("description", text("Reads file contents")),
            ("category", text("file")),
            ("ranking", float(0.8)),
        ]),
        &parse,
    );
    adb.store(
        MemoryType::Tools,
        "write-file",
        obj(vec![
            ("name", text("Write File")),
            ("description", text("Writes file contents")),
            ("category", text("file")),
            ("ranking", float(0.6)),
        ]),
        &parse,
    );

    let results = adb.load(&Predicate::all(), 2, &weigh);
    assert_eq!(results.len(), 2);
    assert_eq!(results[0].id, "read-file");
}

#[test]
fn test_store_and_lookup_procedural() {
    let mut adb = Adb::new();
    adb.store(
        MemoryType::Procedural,
        "oom-fix",
        obj(vec![
            ("pattern", text("OOMKilled container memory")),
            ("steps", texts(&["Check limits", "Increase memory", "Restart"])),
            ("severity", text("critical")),
        ]),
        &parse,
    );

    let results = adb.lookup(MemoryType::Procedural, &Predicate::key("id", Value::string("oom-fix")));
    assert_eq!(results.len(), 1);
}

#[test]
fn test_scan_working() {
    let mut adb = Adb::new();
    for i in 0..5 {
        adb.store(MemoryType::Working, &format!("item-{}", i), obj(vec![("index", num(i))]), &parse);
    }
    assert_eq!(adb.scan().len(), 5);
}

#[test]
fn test_link_operations() {
    let mut adb = Adb::new();
    adb.store(
        MemoryType::Procedural,
        "oom-fix",
        obj(vec![("pattern", text("OOM")), ("steps", texts(&["fix"]))]),
        &parse,
    );

    let link = adb.link(MemoryType::Procedural, "oom-fix", MemoryType::Episodic, "inc-001", "applied_to", bits(0.95));
    assert_eq!(link.link_type, "applied_to");
    assert!((f32::from_bits(link.weight) - 0.95).abs() < 0.01);

    let links = adb.get_links_from(MemoryType::Procedural, "oom-fix", None);
    assert_eq!(links.len(), 1);

    adb.update_link_with_signal(&link.id, bits(1.0), bits(0.9), &blend);

    let links = adb.get_links_from(MemoryType::Procedural, "oom-fix", None);
    assert!(f32::from_bits(links[0].weight) > 0.95);
}

#[test]
fn adb_test_forget() {
    let mut adb = Adb::new();
    adb.store(MemoryType::Working, "temp-1", obj(vec![("temp", Json::Bool(true))]), &parse);
    adb.store(MemoryType::Working, "temp-2", obj(vec![("temp", Json::Bool(true))]), &parse);
    adb.store(MemoryType::Working, "keep", obj(vec![("temp", Json::Bool(false))]), &parse);

    let count = adb.forget(MemoryType::Working, &Predicate::where_eq("temp", Value::Bool(true)));
    assert_eq!(count, 2);
    assert_eq!(adb.count(MemoryType::Working), 1);
}

#[test]
fn adb_test_update() {
    let mut adb = Adb::new();
    adb.store(MemoryType::Working, "task-1", obj(vec![("status", text("pending"))]), &parse);

    let n = adb
        .update(
            MemoryType::Working,
            &Predicate::key("id", Value::string("task-1")),
            &obj(vec![("status", text("completed"))]),
            &parse,
        )
        .unwrap();
    assert_eq!(n, 1);

    let results = adb.lookup(MemoryType::Working, &Predicate::key("id", Value::string("task-1")));
    assert_eq!(results[0].get_str("status"), Some("completed"));
    assert_eq!(results[0].metadata.version, 2);
}

#[test]
fn adb_test_clear() {
    let mut adb = Adb::new();
    for i in 0..10 {
        adb.store(MemoryType::Working, &format!("item-{}", i), obj(vec![("i", num(i))]), &parse);
    }
    assert_eq!(adb.count(MemoryType::Working), 10);
    adb.clear(MemoryType::Working);
    assert_eq!(adb.count(MemoryType::Working), 0);
}

#[test]
fn test_config_builder() {
    let config = AdbConfig::builder()
        .default_scope(Scope::Shared)
        .default_namespace("agent-k8s")
        .default_timeout(Ttl::from_millis(200))
        .ttl_enabled(false)
        .build();

    let adb = Adb::with_config(config);
    assert_eq!(adb.config().default_scope, Scope::Shared);
    assert_eq!(adb.config().default_namespace, Some("agent-k8s".to_string()));
}

#[test]
fn storing_under_an_existing_key_replaces_the_record() {
    let mut adb = Adb::new();
    adb.store(MemoryType::Working, "k", obj(vec![("v", num(1))]), &parse);
    adb.store(MemoryType::Working, "k", obj(vec![("v", num(2))]), &parse);
    assert_eq!(adb.count(MemoryType::Working), 1);
    let found = adb.lookup(MemoryType::Working, &Predicate::key("id", Value::string("k")));
    assert_eq!(found.len(), 1);
    assert_eq!(found[0].get_i64("v"), Some(2));
    assert_eq!(adb.count(MemoryType::Episodic), 0);
}

#[test]
fn forgetting_leaves_no_matching_record() {
    let mut adb = Adb::new();
    for i in 0..6 {
        adb.store(MemoryType::Episodic, &format!("e-{}", i), obj(vec![("even", Json::Bool(i % 2 == 0))]), &parse);
    }
    let p = Predicate::where_eq("even", Value::Bool(true));
    assert_eq!(adb.forget(MemoryType::Episodic, &p), 3);
    assert_eq!(adb.recall(MemoryType::Episodic, &p).len(), 0);
    assert_eq!(adb.count(MemoryType::Episodic), 3);
}

#[test]
fn links_are_found_from_both_ends() {
    let mut adb = Adb::new();
    let l = adb.link(MemoryType::Semantic, "c-1", MemoryType::Procedural, "p-1", "triggers", bits(0.5));
    assert_eq!(adb.get_links_to(MemoryType::Procedural, "p-1", Some("triggers")).len(), 1);
    assert_eq!(adb.get_links_from(MemoryType::Semantic, "c-1", Some("other")).len(), 0);
    assert_eq!(adb.get_link(&l.id).unwrap().to_id, "p-1");
    assert_eq!(adb.forget_links(&LinkPredicate::of_type("triggers")), 1);
    assert_eq!(adb.link_count(), 0);
}

#[test]
fn working_window_keeps_the_last_records() {
    let mut backend = WorkingBackend::new();
    for i in 0..10 {
        backend.store(&format!("item-{}", i), obj(vec![("index", num(i))]), Scope::Private, None, None);
    }
    let last = backend.scan(Some(&Window::last_n(3)));
    assert_eq!(last.len(), 3);
    assert_eq!(backend.count(), 10);
}

#[test]
fn episodic_newest_first() {
    let mut backend = EpisodicBackend::new();
    for i in 0..3 {
        let at = Timestamp { secs: 1_700_000_000 + i, nanos: 0 };
        backend.store_at(&format!("event-{}", i), obj(vec![("seq", num(i))]), Scope::Private, None, None, at);
    }
    let now = Timestamp { secs: 1_700_000_010, nanos: 0 };
    let all = backend.lookup_at(&Predicate::all(), &Modifiers::default(), now);
    assert_eq!(all.len(), 3);
    assert_eq!(all[0].id, "event-2");
    assert_eq!(all[2].id, "event-0");
}

#[test]
fn test_relevance_scoring() {
    let mut tools = ToolsBackend::new();
    let mut a = ToolRecord::new("tool-a", "A", "first", Json::Null, "bid");
    a.ranking = bits(0.8);
    a.set_relevance("bidding", bits(0.3));
    let mut b = ToolRecord::new("tool-b", "B", "second", Json::Null, "bid");
    b.ranking = bits(0.6);
    b.set_relevance("bidding", bits(0.9));
    tools.register(a);
    tools.register(b);
    let ranked = tools.load(&Predicate::all(), &Modifiers::with_limit(2), &weigh);
    assert_eq!(ranked.len(), 2);
    assert_eq!(ranked[0].id, "tool-a");
    assert_eq!(ranked[1].id, "tool-b");
}

#[test]
fn procedure_graph_follows_edges() {
    let mut backend = ProceduralBackend::new();
    backend.add_procedure(ProcedureNode::new("step-1", "Check logs", vec!["kubectl logs".to_string()]));
    backend.add_procedure(ProcedureNode::new("step-2", "Restart pod", vec!["kubectl delete pod".to_string()]));
    assert!(backend.add_edge("step-1", "step-2", "next", bits(1.0)));
    assert!(!backend.add_edge("step-1", "missing", "next", bits(1.0)));
    let deps = backend.get_dependencies("step-1", "next");
    assert_eq!(deps.len(), 1);
    assert_eq!(deps[0].pattern_id, "step-2");
    let dependents = backend.get_dependents("step-2", "next");
    assert_eq!(dependents[0].pattern_id, "step-1");
}

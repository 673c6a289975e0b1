use std::time::Duration;

use agentdb::backend::BackendInfo;
use agentdb::error::AdbError;
use agentdb::json::{Json, Number};
use agentdb::link::{Link, LinkPredicate};
use agentdb::memory::{MemoryRecord, MemoryType, Metadata};
use agentdb::predicate::{Condition, Modifiers, Operator, Predicate, Value};
use agentdb::scope::{Namespace, Scope};
use agentdb::similarity::jaccard_similarity;
use agentdb::time::{parse_duration, DurationUnit, Timestamp, Ttl};

fn text(s: &str) -> Json {
    Json::String(s.to_string())
}

fn num(i: i64) -> Json {
    if i >= 0 {
        Json::Number(Number::PosInt(i as u64))
    } else {
        Json::Number(Number::NegInt(i))
    }
}

fn obj(members: Vec<(&str, Json)>) -> Json {
    Json::Object(members.into_iter().map(|(k, v)| (k.to_string(), v)).collect())
}

/// Reads the number as a double and scales it to seconds by the unit, as
/// a duration text asks.
fn span(number: String, unit: DurationUnit) -> Option<Ttl> {
    let value: f64 = number.parse().ok()?;
    let secs = match unit {
        DurationUnit::Milliseconds => value / 1000.0,
        DurationUnit::Seconds => value,
        DurationUnit::Minutes => value * 60.0,
        DurationUnit::Hours => value * 3600.0,
        DurationUnit::Days => value * 86400.0,
    };
    Some(Ttl::new(Duration::from_secs_f64(secs)))
}

fn parsed(s: &str) -> Option<Duration> {
    parse_duration(s, &span).map(|t| t.as_duration())
}

fn bits(x: f32) -> u32 {
    x.to_bits()
}

#[test]
fn backend_test_backend_info() {
    let info = BackendInfo::working();
    assert_eq!(info.memory_type, MemoryType::Working);
    assert!(info.supports_scan);
    assert!(!info.supports_load);

    let info = BackendInfo::tools();
    assert_eq!(info.memory_type, MemoryType::Tools);
    assert!(!info.supports_scan);
    assert!(info.supports_load);
}

#[test]
fn test_memory_type_parsing() {
    assert_eq!(MemoryType::from_str("WORKING"), Some(MemoryType::Working));
    assert_eq!(MemoryType::from_str("working"), Some(MemoryType::Working));
    assert_eq!(MemoryType::from_str("Episodic"), Some(MemoryType::Episodic));
    assert_eq!(MemoryType::from_str("invalid"), None);
}

#[test]
fn test_memory_type_display() {
    assert_eq!(MemoryType::Working.to_string(), "WORKING");
    assert_eq!(MemoryType::Semantic.to_string(), "SEMANTIC");
}

#[test]
fn test_memory_record_creation() {
    let record = MemoryRecord::new(
        "test-1",
        MemoryType::Working,
        obj(vec![("key", text("value")), ("count", num(42))]),
        Scope::Private,
    );

    assert_eq!(record.id, "test-1");
    assert_eq!(record.memory_type, MemoryType::Working);
    assert_eq!(record.get_str("key"), Some("value"));
    assert_eq!(record.get_i64("count"), Some(42));
    assert!(!record.is_expired());
}

#[test]
fn test_scope_parsing() {
    assert_eq!(Scope::from_str("private"), Some(Scope::Private));
    assert_eq!(Scope::from_str("SHARED"), Some(Scope::Shared));
    assert_eq!(Scope::from_str("Cluster"), Some(Scope::Cluster));
    assert_eq!(Scope::from_str("invalid"), None);
}

#[test]
fn test_scope_access() {
    assert!(Scope::Cluster.allows_access_from(&Scope::Private));
    assert!(Scope::Cluster.allows_access_from(&Scope::Shared));
    assert!(Scope::Cluster.allows_access_from(&Scope::Cluster));

    assert!(!Scope::Shared.allows_access_from(&Scope::Private));
    assert!(Scope::Shared.allows_access_from(&Scope::Shared));
    assert!(Scope::Shared.allows_access_from(&Scope::Cluster));

    assert!(Scope::Private.allows_access_from(&Scope::Private));
    assert!(!Scope::Private.allows_access_from(&Scope::Shared));
    assert!(!Scope::Private.allows_access_from(&Scope::Cluster));
}

#[test]
fn test_namespace_matching() {
    let ns1 = Namespace::new("agent.k8s");
    let ns2 = Namespace::new("agent.k8s");
    let ns3 = Namespace::new("agent.rtb");
    let wildcard = Namespace::new("agent.*");

    assert!(ns1.matches(&ns2));
    assert!(!ns1.matches(&ns3));
    assert!(wildcard.matches(&ns1));
    assert!(wildcard.matches(&ns3));
}

#[test]
fn namespace_wildcard_does_not_cover_its_prefix() {
    let wildcard = Namespace::new("agent.*");
    assert!(!wildcard.matches(&Namespace::new("agent")));
    assert!(wildcard.matches(&Namespace::new("agent.x.y")));
}

#[test]
fn test_parse_duration() {
    assert_eq!(parsed("30s"), Some(Duration::from_secs(30)));
    assert_eq!(parsed("5m"), Some(Duration::from_secs(300)));
    assert_eq!(parsed("1h"), Some(Duration::from_secs(3600)));
    assert_eq!(parsed("7d"), Some(Duration::from_secs(604800)));
    assert_eq!(parsed("100ms"), Some(Duration::from_millis(100)));
    assert_eq!(parsed("1.5s"), Some(Duration::from_millis(1500)));

    assert_eq!(parsed(""), None);
    assert_eq!(parsed("abc"), None);
    assert_eq!(parsed("5x"), None);
}

#[test]
fn parse_duration_trims_and_ignores_unit_case() {
    assert_eq!(parsed("  2 MIN "), Some(Duration::from_secs(120)));
    assert_eq!(parsed("45"), Some(Duration::from_secs(45)));
    assert_eq!(Ttl::parse("3hours", &span).map(|t| t.as_secs()), Some(10800));
    assert_eq!(parsed("1.2.3s"), None);
}

#[test]
fn test_ttl_display() {
    assert_eq!(Ttl::from_secs(30).to_string(), "30s");
    assert_eq!(Ttl::from_mins(5).to_string(), "5m");
    assert_eq!(Ttl::from_hours(2).to_string(), "2h");
    assert_eq!(Ttl::from_days(1).to_string(), "1d");
    assert_eq!(Ttl::from_millis(500).to_string(), "500ms");
}

#[test]
fn test_ttl_conversions() {
    let ttl = Ttl::from_mins(5);
    let duration: Duration = ttl.as_duration();
    assert_eq!(duration, Duration::from_secs(300));

    let ttl2: Ttl = Ttl::new(duration);
    assert_eq!(ttl2.as_secs(), 300);
}

#[test]
fn ttl_millis_of_a_span() {
    assert_eq!(Ttl::from_millis(1500).as_millis(), 1500);
    assert_eq!(Ttl::from_millis(1500).as_secs(), 1);
    assert_eq!(Ttl::from_secs(90).to_string(), "90s");
}

#[test]
fn test_condition_matching() {
    let data = obj(vec![("name", text("test")), ("count", num(42)), ("active", Json::Bool(true))]);

    assert!(Condition::eq("name", Value::string("test")).matches(&data));
    assert!(!Condition::eq("name", Value::string("other")).matches(&data));
    assert!(Condition::gt("count", Value::Int(40)).matches(&data));
    assert!(Condition::lt("count", Value::Int(50)).matches(&data));
    assert!(Condition::eq("active", Value::Bool(true)).matches(&data));
}

#[test]
fn test_operator_contains() {
    let data = obj(vec![
        ("tags", Json::Array(vec![text("rust"), text("adb")])),
        ("name", text("hello world")),
    ]);

    let cond = Condition::new("name", Operator::Contains, Value::string("world"));
    assert!(cond.matches(&data));

    let cond = Condition::new("tags", Operator::Contains, Value::string("rust"));
    assert!(cond.matches(&data));
}

#[test]
fn condition_on_missing_field_fails() {
    let data = obj(vec![("name", text("test"))]);
    assert!(!Condition::eq("other", Value::string("test")).matches(&data));
    assert!(!Condition::ne("other", Value::string("test")).matches(&data));
}

#[test]
fn test_predicate_where() {
    let pred = Predicate::Where {
        conditions: vec![Condition::eq("pod", Value::string("payments")), Condition::gt("severity", Value::Int(5))],
    };

    assert!(!pred.requires_embedding());
    assert!(!pred.requires_pattern_match());
}

#[test]
fn test_modifiers_builder() {
    let mods = Modifiers::with_limit(10).order_by("timestamp", false).min_confidence(bits(0.7));

    assert_eq!(mods.limit, Some(10));
    assert_eq!(mods.order_by.as_ref().unwrap().ascending, false);
    assert_eq!(mods.min_confidence.map(f32::from_bits), Some(0.7));
}

#[test]
fn test_link_creation() {
    let link = Link::new(MemoryType::Procedural, "oom-fix", MemoryType::Episodic, "inc-001", "applied_to", bits(0.95));

    assert_eq!(link.from_type, MemoryType::Procedural);
    assert_eq!(link.from_id, "oom-fix");
    assert_eq!(link.to_type, MemoryType::Episodic);
    assert_eq!(link.to_id, "inc-001");
    assert_eq!(link.link_type, "applied_to");
    assert!((f32::from_bits(link.weight) - 0.95).abs() < 0.001);
}

/// `weight * decay + signal * (1 - decay)` in single precision.
fn blend(weight: u32, signal: u32, decay: u32) -> u32 {
    let (w, s, d) = (f32::from_bits(weight), f32::from_bits(signal), f32::from_bits(decay));
    (w * d + s * (1.0 - d)).to_bits()
}

#[test]
fn test_weight_update() {
    let mut link = Link::new(MemoryType::Procedural, "test", MemoryType::Episodic, "test", "applied_to", bits(0.5));

    link.update_weight(bits(1.0), bits(0.9), &blend);
    assert!(f32::from_bits(link.weight) > 0.5);

    link.update_weight(bits(0.0), bits(0.9), &blend);
    assert!(f32::from_bits(link.weight) < 0.6);
}

#[test]
fn link_weight_is_clamped() {
    let link = Link::new(MemoryType::Working, "a", MemoryType::Working, "b", "t", bits(1.7));
    assert_eq!(f32::from_bits(link.weight), 1.0);
    let link = Link::new(MemoryType::Working, "a", MemoryType::Working, "b", "t", bits(-0.3));
    assert_eq!(f32::from_bits(link.weight), 0.0);
    let mut link = Link::new(MemoryType::Working, "a", MemoryType::Working, "b", "t", bits(0.5));
    link.set_weight(bits(2.0));
    assert_eq!(f32::from_bits(link.weight), 1.0);
}

#[test]
fn test_link_predicate_matching() {
    let link = Link::new(MemoryType::Procedural, "oom-fix", MemoryType::Episodic, "inc-001", "applied_to", bits(0.95));

    let pred = LinkPredicate::from_record(MemoryType::Procedural, "oom-fix");
    assert!(pred.matches(&link));

    let pred = LinkPredicate::to_record(MemoryType::Episodic, "inc-001");
    assert!(pred.matches(&link));

    let pred = LinkPredicate::of_type("applied_to");
    assert!(pred.matches(&link));

    let pred = LinkPredicate::of_type("applied_to").with_min_weight(bits(0.9));
    assert!(pred.matches(&link));

    let pred = LinkPredicate::of_type("applied_to").with_min_weight(bits(0.99));
    assert!(!pred.matches(&link));
}

#[test]
fn test_other_end() {
    let link = Link::new(MemoryType::Procedural, "oom-fix", MemoryType::Episodic, "inc-001", "applied_to", bits(0.95));

    let other = link.other_end(MemoryType::Procedural, "oom-fix");
    assert_eq!(other, Some((MemoryType::Episodic, "inc-001")));

    let other = link.other_end(MemoryType::Episodic, "inc-001");
    assert_eq!(other, Some((MemoryType::Procedural, "oom-fix")));

    let other = link.other_end(MemoryType::Working, "other");
    assert_eq!(other, None);
}

#[test]
fn test_error_display() {
    let err = AdbError::Timeout { budget_ms: 100 };
    assert_eq!(err.to_string(), "Operation timed out after 100ms");

    let err = AdbError::not_found("EPISODIC", "inc-001");
    assert_eq!(err.to_string(), "Record not found: EPISODIC/inc-001");
}

#[test]
fn test_error_checks() {
    let timeout = AdbError::Timeout { budget_ms: 50 };
    assert!(timeout.is_timeout());
    assert!(!timeout.is_not_found());

    let not_found = AdbError::not_found("WORKING", "key-1");
    assert!(!not_found.is_timeout());
    assert!(not_found.is_not_found());
}

#[test]
fn test_jaccard_similarity() {
    assert!((f32::from_bits(jaccard_similarity("foo bar baz", "foo bar qux")) - 0.5).abs() < 0.01);
    assert!((f32::from_bits(jaccard_similarity("foo bar", "foo bar")) - 1.0).abs() < 0.01);
    assert!((f32::from_bits(jaccard_similarity("foo", "bar")) - 0.0).abs() < 0.01);
    assert!((f32::from_bits(jaccard_similarity("", "")) - 1.0).abs() < 0.01);
}

#[test]
fn jaccard_is_exact_over_distinct_tokens() {
    assert_eq!(f32::from_bits(jaccard_similarity("a b c", "b c d")), 0.5);
    assert_eq!(f32::from_bits(jaccard_similarity("a a b", "b  a")), 1.0);
    assert_eq!(f32::from_bits(jaccard_similarity("OOM", "oom")), 0.0);
    assert_eq!(f32::from_bits(jaccard_similarity("a b c", "a")), 1.0 / 3.0);
}

fn plus_millis(t: Timestamp, ms: u32) -> Timestamp {
    let nanos = t.nanos + ms * 1_000_000;
    Timestamp { secs: t.secs + (nanos / 1_000_000_000) as i64, nanos: nanos % 1_000_000_000 }
}

/// Metadata with a 1 ms time to live has expired 10 ms later (the later
/// instant is given explicitly in place of a sleep).
#[test]
fn test_metadata_ttl() {
    let meta = Metadata::with_ttl(Scope::Private, Ttl::from_millis(1));
    let later = plus_millis(meta.created_at, 10);
    assert!(meta.is_expired_at(&later));
    assert!(!meta.is_expired_at(&meta.created_at));
}

/// Touching metadata a millisecond later moves its access time forward.
#[test]
fn test_metadata_touch() {
    let mut meta = Metadata::new(Scope::Private);
    let original_accessed = meta.accessed_at;

    meta.touch_at(plus_millis(original_accessed, 1));

    assert!(meta.accessed_at.is_after(&original_accessed));
}

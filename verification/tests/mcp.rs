use agentdb::adb::Adb;
use agentdb::json::{Json, Number};
use agentdb::mcp::{episodic_request, get_context, get_tools, recall_working_predicate};
use agentdb::memory::MemoryType;
use agentdb::predicate::{Predicate, Value, Window};

fn text(s: &str) -> Json {
    Json::String(s.to_string())
}

fn num(i: i64) -> Json {
    if i >= 0 {
        Json::Number(Number::PosInt(i as u64))
    } else {
        Json::Number(Number::NegInt(i))
    }
}

fn obj(members: Vec<(&str, Json)>) -> Json {
    Json::Object(members.into_iter().map(|(k, v)| (k.to_string(), v)).collect())
}

fn parse(s: String) -> Option<u64> {
    s.parse::<f64>().ok().map(f64::to_bits)
}

fn to_text(_j: Json) -> String {
    "{}".to_string()
}

fn member<'a>(j: &'a Json, k: &str) -> Option<&'a Json> {
    match j {
        Json::Object(m) => m.iter().find(|(key, _)| key == k).map(|(_, v)| v),
        _ => None,
    }
}

#[test]
fn tools_list_names_every_tool() {
    let tools = get_tools();
    let names: Vec<&str> = tools.iter().map(|t| t.name.as_str()).collect();
    assert_eq!(names, vec!["aql_query", "store_working", "recall_working", "recall_episodic", "get_context"]);
    let schema = &tools[1].input_schema;
    assert!(matches!(member(schema, "type"), Some(Json::String(s)) if s == "object"));
    match member(schema, "required") {
        Some(Json::Array(items)) => assert_eq!(items.len(), 2),
        _ => panic!("store_working requires its key and data"),
    }
    assert!(member(&tools[2].input_schema, "required").is_none());
    assert!(member(member(&tools[0].input_schema, "properties").unwrap(), "query").is_some());
}

#[test]
fn recall_working_by_key_field_or_all() {
    let by_key = recall_working_predicate(Some(&obj(vec![("key", text("task-1"))])), &to_text);
    assert!(matches!(by_key, Predicate::Key { ref field, value: Value::String(ref s) } if field == "id" && s == "task-1"));

    let by_field = recall_working_predicate(Some(&obj(vec![("field", text("status")), ("value", num(3))])), &to_text);
    match by_field {
        Predicate::Where { conditions } => {
            assert_eq!(conditions.len(), 1);
            assert_eq!(conditions[0].field, "status");
            assert!(matches!(conditions[0].value, Value::Int(3)));
        },
        _ => panic!("a field filter"),
    }

    assert!(matches!(recall_working_predicate(None, &to_text), Predicate::All));
    assert!(matches!(recall_working_predicate(Some(&obj(vec![("field", text("x"))])), &to_text), Predicate::All));
}

#[test]
fn recall_episodic_defaults_to_an_hour() {
    let r = episodic_request(None);
    assert!(matches!(r.predicate, Predicate::All));
    match r.modifiers.window {
        Some(Window::LastDuration { duration }) => assert_eq!(duration.as_secs(), 3600),
        _ => panic!("a time window"),
    }
    assert_eq!(r.modifiers.limit, None);

    let r = episodic_request(Some(&obj(vec![("window_minutes", num(5)), ("limit", num(7)), ("event_type", text("login"))])));
    assert_eq!(r.modifiers.limit, Some(7));
    match r.modifiers.window {
        Some(Window::LastDuration { duration }) => assert_eq!(duration.as_secs(), 300),
        _ => panic!("a time window"),
    }
    assert!(matches!(r.predicate, Predicate::Where { .. }));
}

#[test]
fn context_holds_what_was_asked() {
    let mut adb = Adb::new();
    adb.store(MemoryType::Working, "current-task", obj(vec![("description", text("Processing request"))]), &parse);
    adb.store(MemoryType::Episodic, "ev", obj(vec![("e", num(1))]), &parse);

    let c = get_context(&adb, None);
    assert_eq!(c.working.unwrap().len(), 1);
    assert_eq!(c.episodic.unwrap().len(), 1);

    let c = get_context(&adb, Some(&obj(vec![("include_working", Json::Bool(false))])));
    assert!(c.working.is_none());
    assert!(c.episodic.is_some());
}

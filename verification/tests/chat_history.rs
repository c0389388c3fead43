use livekit_analyzer::json::{copy_json, Json, JsonNumber};
use livekit_analyzer::parser::{parse_chat_history, parse_conversation_turn};
use livekit_analyzer::ui::spans::format_json_value;
use livekit_analyzer::timeline::call_outputs;

fn s(v: &str) -> Json {
    Json::Str(v.to_string())
}

fn obj(entries: Vec<(&str, Json)>) -> Json {
    Json::Object(entries.into_iter().map(|(k, v)| (k.to_string(), v)).collect())
}

fn key_of(entries: &[(String, Json)], k: &str) -> Option<usize> {
    entries.iter().position(|(key, _)| key == k)
}

fn message(id: &str, role: &str, content: Json) -> Json {
    obj(vec![("id", s(id)), ("type", s("message")), ("role", s(role)), ("content", content)])
}

#[test]
fn history_keeps_readable_items_in_order() {
    let items = Json::Array(vec![
        message("a", "user", Json::Array(vec![s("hello"), s("there")])),
        obj(vec![("type", s("message"))]),
        message("b", "assistant", s("hi")),
    ]);
    let doc = obj(vec![("items", items)]);
    let turns = parse_chat_history(&doc);
    assert_eq!(turns.len(), 2);
    assert_eq!(turns[0].id, "a");
    assert_eq!(turns[0].role.as_deref(), Some("user"));
    assert_eq!(turns[0].text(), "hello there");
    assert_eq!(turns[1].text(), "hi");
    assert!(!turns[1].interrupted);
}

#[test]
fn history_without_items_is_empty() {
    assert!(parse_chat_history(&obj(vec![])).is_empty());
    assert!(parse_chat_history(&obj(vec![("items", s("no"))])).is_empty());
}

#[test]
fn content_keeps_only_strings() {
    let n = Json::Number(JsonNumber { int: Some(3), uint: Some(3), text: "3".to_string() });
    let item = message("c", "user", Json::Array(vec![s("one"), n, s("two")]));
    let t = parse_conversation_turn(&item).unwrap();
    assert_eq!(t.content, vec!["one".to_string(), "two".to_string()]);
    let none = message("d", "user", Json::Null);
    assert!(parse_conversation_turn(&none).unwrap().content.is_empty());
}

#[test]
fn function_call_fields_join_extra() {
    let item = obj(vec![
        ("id", s("f")),
        ("type", s("function_call")),
        ("name", s("lookup")),
        ("arguments", s("{}")),
        ("interrupted", Json::Bool(true)),
        ("extra", obj(vec![("name", s("from_extra")), ("note", s("x"))])),
    ]);
    let t = parse_conversation_turn(&item).unwrap();
    assert!(t.interrupted);
    assert!(t.role.is_none());
    assert_eq!(t.extra.len(), 3);
    let name = key_of(&t.extra, "name").unwrap();
    assert!(matches!(&t.extra[name].1, Json::Str(v) if v == "from_extra"));
    assert!(key_of(&t.extra, "arguments").is_some());
    assert!(key_of(&t.extra, "call_id").is_none());
}

#[test]
fn copied_json_is_equal() {
    let v = obj(vec![("a", Json::Array(vec![s("x"), Json::Bool(false)]))]);
    let c = copy_json(&v);
    assert_eq!(format!("{:?}", c), format!("{:?}", v));
}

#[test]
fn json_values_display_compactly() {
    let n = Json::Number(JsonNumber { int: Some(-2), uint: None, text: "-2".to_string() });
    let v = obj(vec![
        ("name", s("x")),
        ("list", Json::Array(vec![n, Json::Bool(true), Json::Null])),
        ("empty", Json::Array(vec![])),
        ("inner", obj(vec![("k", s("v"))])),
    ]);
    assert_eq!(format_json_value(&v), "{name: x, list: [-2, true, null], empty: [], inner: {k: v}}");
    assert_eq!(format_json_value(&obj(vec![])), "{}");
}

fn item(id: &str, ty: &str, call_id: Option<&str>) -> Json {
    let mut e = vec![("id", s(id)), ("type", s(ty))];
    if let Some(c) = call_id {
        e.push(("call_id", s(c)));
    }
    obj(e)
}

#[test]
fn calls_are_paired_with_their_outputs() {
    let items = Json::Array(vec![
        item("1", "function_call", Some("a")),
        item("2", "function_call", Some("b")),
        item("3", "function_call_output", Some("b")),
        item("4", "function_call_output", Some("a")),
        item("5", "function_call", None),
        item("6", "message", None),
        item("7", "function_call_output", Some("z")),
        item("8", "function_call", Some("q")),
    ]);
    let turns = parse_chat_history(&obj(vec![("items", items)]));
    assert_eq!(turns.len(), 8);
    let pairs = call_outputs(&turns);
    assert_eq!(pairs, vec![Some(3), Some(2), None, None, Some(6), None, None, None]);
}

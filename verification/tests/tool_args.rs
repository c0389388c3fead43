use livekit_analyzer::data::ConversationTurn;
use livekit_analyzer::json::{Json, JsonNumber};
use livekit_analyzer::toolargs::{
    arguments_text, call_arguments, extra_text_or, handoff_target, output_shown, summarize_tool_args,
    summarize_tool_args_text,
};

fn num(n: i64) -> Json {
    Json::Number(JsonNumber { int: Some(n), uint: if n >= 0 { Some(n as u64) } else { None }, text: n.to_string() })
}

fn item(ty: &str, extra: Vec<(&str, Json)>) -> ConversationTurn {
    ConversationTurn {
        id: "item_1".to_string(),
        turn_type: ty.to_string(),
        role: None,
        content: Vec::new(),
        interrupted: false,
        created_at: None,
        metrics: None,
        extra: extra.into_iter().map(|(k, v)| (k.to_string(), v)).collect(),
    }
}

#[test]
fn transcript_arguments_are_shortened() {
    let args = r#"{"city": "Paris", "days": 3, "note": null, "tags": ["a", "b"]}"#;
    assert_eq!(summarize_tool_args_text(args).unwrap(), "city=\"Paris\", days=3, tags=[\"a\",\"b\"]");
    let long = format!("{{\"q\": \"{}\"}}", "x".repeat(45));
    assert_eq!(summarize_tool_args_text(&long).unwrap(), format!("q=\"{}...\"", "x".repeat(37)));
    assert_eq!(summarize_tool_args_text("not json").unwrap(), "");
    assert_eq!(summarize_tool_args_text("[1, 2]").unwrap(), "");
}

#[test]
fn transcript_arguments_stop_after_eighty_bytes() {
    // Each part takes 39 bytes and two of separator: the second passes 80.
    let args = format!(r#"{{"a": "{}", "b": "{}", "c": 1}}"#, "y".repeat(35), "z".repeat(35));
    let out = summarize_tool_args_text(&args).unwrap();
    assert_eq!(out, format!("a=\"{}\", ...", "y".repeat(35)));
    let fits = format!(r#"{{"a": "{}", "b": "{}", "c": 1}}"#, "y".repeat(30), "z".repeat(30));
    assert_eq!(
        summarize_tool_args_text(&fits).unwrap(),
        format!("a=\"{}\", b=\"{}\", c=1", "y".repeat(30), "z".repeat(30))
    );
}

#[test]
fn argument_cut_inside_a_character_is_refused() {
    let args = format!("{{\"q\": \"{}é{}\"}}", "x".repeat(36), "x".repeat(10));
    assert_eq!(summarize_tool_args_text(&args), None);
}

#[test]
fn timeline_arguments_keep_every_entry() {
    let args = r#"{"b": true, "a": {"k": 1}}"#;
    assert_eq!(summarize_tool_args(args).unwrap(), "a={\"k\":1}, b=true");
    let plain = "w".repeat(90);
    assert_eq!(summarize_tool_args(&plain).unwrap(), format!("{}...", "w".repeat(77)));
    assert_eq!(summarize_tool_args("short text").unwrap(), "short text");
}

#[test]
fn outputs_are_shown_short() {
    assert_eq!(output_shown("", 60), "ok");
    assert_eq!(output_shown("\"ok\"", 60), "ok");
    assert_eq!(output_shown("done", 60), "done");
    assert_eq!(output_shown(&"o".repeat(70), 60), format!("{}...", "o".repeat(57)));
}

#[test]
fn item_fields_for_the_reports() {
    let handoff = item("agent_handoff", vec![("new_agent_id", Json::Str("billing".to_string()))]);
    assert_eq!(handoff_target(&handoff), "billing");
    let bare = item("agent_handoff", vec![]);
    assert_eq!(handoff_target(&bare), "item_1");
    let call = item("function_call", vec![("name", Json::Str("lookup".to_string())), ("arguments", Json::Array(vec![num(1), num(-2)]))]);
    assert_eq!(extra_text_or(&call, "name", "unknown"), "lookup");
    assert_eq!(extra_text_or(&call, "missing", "unknown"), "unknown");
    assert_eq!(call_arguments(&call).unwrap(), "[1,-2]");
    assert_eq!(arguments_text(&Json::Str("{\"a\":1}".to_string())), "{\"a\":1}");
    assert_eq!(call_arguments(&bare), None);
}

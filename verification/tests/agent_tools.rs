use livekit_analyzer::data::Span;
use livekit_analyzer::json::Json;
use livekit_analyzer::toolcalls::ToolCall;
use livekit_analyzer::ui::agents::{agent_name_at, extract_tools_with_agent, AgentRun};

fn run(name: &str, start_ns: i64, end_ns: Option<i64>) -> AgentRun {
    AgentRun { name: name.to_string(), start_ns, end_ns }
}

#[test]
fn agent_at_a_time_is_the_latest_started_active_one() {
    let runs = vec![run("main", 0, None), run("billing", 10, Some(20)), run("support", 15, Some(18))];
    assert_eq!(agent_name_at(&runs, 5), "main");
    assert_eq!(agent_name_at(&runs, 16), "support");
    assert_eq!(agent_name_at(&runs, 19), "billing");
    assert_eq!(agent_name_at(&runs, 25), "main");
    assert_eq!(agent_name_at(&Vec::new(), 25), "unknown");
    assert_eq!(agent_name_at(&vec![run("late", 30, None)], 25), "unknown");
}

#[test]
fn equal_starts_choose_the_last_run() {
    let runs = vec![run("first", 10, None), run("second", 10, None)];
    assert_eq!(agent_name_at(&runs, 11), "second");
}

#[test]
fn span_tools_are_added_unless_already_listed() {
    let runs = vec![run("main", 0, None)];
    let calls = vec![ToolCall { name: "lookup".to_string(), start_ns: 1_000_000_000, end_ns: 1_000_000_000 }];
    let spans = vec![
        span("function_call", Some("lookup"), 1_200_000_000, 1_500_000_000),
        span("llm_node", None, 1_300_000_000, 1_400_000_000),
        span("function_call", Some("book"), 2_000_000_000, 2_100_000_000),
    ];
    let tools = extract_tools_with_agent(&calls, &spans, &runs);
    assert_eq!(tools.len(), 2);
    assert_eq!(tools[0].name, "lookup");
    assert_eq!(tools[1].name, "book");
    assert_eq!(tools[1].agent, "main");
    assert_eq!(tools[1].end_ns, 2_100_000_000);
}

fn span(name: &str, function: Option<&str>, start: i64, end: i64) -> Span {
    let attributes = match function {
        Some(f) => vec![("lk.function_name".to_string(), Json::Str(f.to_string()))],
        None => Vec::new(),
    };
    Span {
        span_id: format!("{}", start),
        parent_span_id: None,
        name: name.to_string(),
        start_time_ns: start,
        end_time_ns: end,
        attributes,
    }
}

#[test]
fn tool_span_names_come_from_the_attribute_even_when_empty() {
    let spans = vec![span("tool_call", Some(""), 0, 1), span("function_call", None, 5_000_000_000, 5_000_000_001)];
    let tools = extract_tools_with_agent(&Vec::new(), &spans, &Vec::new());
    assert_eq!(tools.len(), 2);
    assert_eq!(tools[0].name, "");
    assert_eq!(tools[0].agent, "unknown");
    assert_eq!(tools[1].name, "function_call");
}

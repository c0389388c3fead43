use livekit_analyzer::data::Span;
use livekit_analyzer::pipeline::{preceding_user_turn, tool_calls_during};
use livekit_analyzer::toolcalls::ToolCall;

fn span(name: &str, start: i64, end: i64) -> Span {
    Span {
        span_id: format!("{}-{}", name, start),
        parent_span_id: None,
        name: name.to_string(),
        start_time_ns: start,
        end_time_ns: end,
        attributes: Vec::new(),
    }
}

const S: i64 = 1_000_000_000;

#[test]
fn latest_fitting_user_turn_is_chosen() {
    let spans = vec![
        span("user_turn", 0, 2 * S),
        span("user_turn", 3 * S, 5 * S),
        span("agent_turn", 5 * S, 8 * S),
        span("user_turn", 9 * S, 12 * S),
    ];
    assert_eq!(preceding_user_turn(&spans, 5 * S), Some(1));
}

#[test]
fn user_turn_may_end_just_after_the_agent_starts() {
    let spans = vec![span("user_turn", 0, 5 * S + S / 2), span("user_turn", 0, 5 * S + S / 2 + 1)];
    assert_eq!(preceding_user_turn(&spans, 5 * S), Some(0));
}

#[test]
fn old_user_turns_do_not_count() {
    let spans = vec![span("user_turn", 0, S), span("agent_turn", 0, S)];
    assert_eq!(preceding_user_turn(&spans, 11 * S), None);
    assert_eq!(preceding_user_turn(&spans, 10 * S + S - 1), Some(0));
}

#[test]
fn equal_ends_choose_the_last() {
    let spans = vec![span("user_turn", 0, S), span("user_turn", S / 2, S)];
    assert_eq!(preceding_user_turn(&spans, 2 * S), Some(1));
}

#[test]
fn tool_calls_within_the_range() {
    let calls = vec![
        ToolCall { name: "a".to_string(), start_ns: 1, end_ns: 2 },
        ToolCall { name: "b".to_string(), start_ns: 5, end_ns: 9 },
        ToolCall { name: "c".to_string(), start_ns: 10, end_ns: 10 },
        ToolCall { name: "d".to_string(), start_ns: 11, end_ns: 12 },
    ];
    assert_eq!(tool_calls_during(&calls, 5, 10), vec!["b".to_string(), "c".to_string()]);
    assert!(tool_calls_during(&calls, 20, 30).is_empty());
}

use livekit_analyzer::analysis::{
    agent_turn_parts, get_attr_string, session_info, tool_call_patterns, tool_calls_from_logs, tool_calls_from_spans,
};
use livekit_analyzer::data::{diagnosis_verdict, is_error_log, is_warning_log, DiagnosisVerdict, LogEntry, Severity, Span};
use livekit_analyzer::json::Json;
use livekit_analyzer::report::{
    colorize, colors, json_diagnosis, json_summary, severity_to_ansi, verdict_name, TurnTag,
};
use livekit_analyzer::timeline::{group_warnings, group_warnings_checked, warning_group_key, warning_patterns};
use livekit_analyzer::ui::agents::extract_agent_runs;

fn log(ts: i64, sev: &str, logger: &str, msg: &str) -> LogEntry {
    LogEntry { timestamp_ns: ts, severity: sev.to_string(), message: msg.to_string(), logger_name: logger.to_string() }
}

fn span(id: &str, parent: Option<&str>, name: &str, start: i64, attrs: Vec<(&str, &str)>) -> Span {
    Span {
        span_id: id.to_string(),
        parent_span_id: parent.map(|p| p.to_string()),
        name: name.to_string(),
        start_time_ns: start,
        end_time_ns: start + 10,
        attributes: attrs.into_iter().map(|(k, v)| (k.to_string(), Json::Str(v.to_string()))).collect(),
    }
}

#[test]
fn severities_and_verdicts() {
    assert!(is_error_log(&log(0, "CRITICAL", "a", "")));
    assert!(!is_error_log(&log(0, "WARN", "a", "")));
    assert!(is_warning_log(&log(0, "WARN", "a", "")));
    assert_eq!(diagnosis_verdict(0, 0, 0), DiagnosisVerdict::Healthy);
    assert_eq!(diagnosis_verdict(6, 0, 0), DiagnosisVerdict::Problematic);
    assert_eq!(diagnosis_verdict(0, 1, 0), DiagnosisVerdict::Problematic);
    assert_eq!(diagnosis_verdict(2, 0, 1), DiagnosisVerdict::NeedsAttention);
}

#[test]
fn report_colours() {
    assert_eq!(colorize("x", "\x1b[91m", true), "\x1b[91mx\x1b[0m");
    assert_eq!(colorize("x", "\x1b[91m", false), "x");
    assert_eq!(colors(&["\x1b[1m", "\x1b[94m"]), "\x1b[1m\x1b[94m");
    assert_eq!(colors(&[]), "");
    assert_eq!(severity_to_ansi(Severity::Good), "\x1b[92m");
    assert_eq!(severity_to_ansi(Severity::Critical), "\x1b[91m");
}

#[test]
fn summary_and_diagnosis_records() {
    let turns = vec![
        TurnTag { role: Some("user".to_string()), interrupted: false },
        TurnTag { role: Some("assistant".to_string()), interrupted: true },
        TurnTag { role: None, interrupted: false },
        TurnTag { role: Some("user".to_string()), interrupted: false },
    ];
    let s = json_summary(&turns, 1, 2, 3);
    assert_eq!((s.total_turns, s.user_turns, s.assistant_turns, s.interrupted_turns), (4, 2, 1, 1));
    assert_eq!((s.errors, s.warnings, s.tool_calls), (1, 2, 3));
    let d = json_diagnosis(DiagnosisVerdict::NeedsAttention, Some("LLM".to_string()), None, &vec![2, 0, 3], 1, 0);
    assert_eq!(d.verdict, "needs_attention");
    assert_eq!(d.slow_turns_count, 5);
    assert_eq!(d.primary_issue, Some("LLM".to_string()));
    assert_eq!(verdict_name(DiagnosisVerdict::Healthy), "healthy");
}

#[test]
fn warning_keys_hide_ids_and_numbers() {
    let (h, n) = warning_patterns().unwrap();
    assert_eq!(warning_group_key(&h, &n, "lk", "retry 3 for deadbeef01 in 2.5 s"), "lk::retry <N> for <ID> in <N> s");
}

#[test]
fn warnings_grouped_and_ordered_by_count() {
    let (h, n) = warning_patterns().unwrap();
    let ws = vec![
        log(50, "WARN", "a", "slow response 1"),
        log(10, "WARN", "b", "other\nthing"),
        log(30, "WARN", "a", "slow response 2"),
        log(20, "WARN", "a", "slow response 3"),
    ];
    let groups = group_warnings(&h, &n, &ws);
    assert_eq!(groups.len(), 2);
    assert_eq!(groups[0].count, 3);
    assert_eq!(groups[0].label, "slow response 1");
    assert_eq!((groups[0].first_ns, groups[0].last_ns), (20, 50));
    assert_eq!(groups[1].label, "other | thing");
    assert_eq!(groups[1].logger, "b");
    let total: usize = groups.iter().map(|g| g.count).sum();
    assert_eq!(total, ws.len());
    let checked = group_warnings_checked(&h, &n, &ws).unwrap();
    assert_eq!(checked.len(), 2);
}

#[test]
fn long_warning_labels_are_cut() {
    let (h, n) = warning_patterns().unwrap();
    let ws = vec![log(1, "WARN", "a", &"w".repeat(100))];
    let groups = group_warnings(&h, &n, &ws);
    assert_eq!(groups[0].label, format!("{}...", "w".repeat(77)));
    let bad = vec![log(1, "WARN", "a", &format!("{}é{}", "w".repeat(76), "w".repeat(10)))];
    assert!(group_warnings_checked(&h, &n, &bad).is_none());
}

#[test]
fn tool_calls_named_in_logs() {
    let (t, f) = tool_call_patterns();
    let logs = vec![
        log(1, "INFO", "a", "TOOL-TRACE tool=lookup_order args"),
        log(2, "INFO", "a", "TOOL-TRACE tool=MAIN_AGENT"),
        log(3, "INFO", "a", "function_call: transfer_call"),
        log(4, "INFO", "a", "Executing agent run for tool=x"),
        log(5, "INFO", "a", "nothing here"),
    ];
    let calls = tool_calls_from_logs(&t, &f, &logs);
    let got: Vec<(&str, i64)> = calls.iter().map(|c| (c.name.as_str(), c.timestamp_ns)).collect();
    assert_eq!(got, vec![("lookup_order", 1), ("transfer_call", 3)]);
}

#[test]
fn span_metadata_and_tool_calls() {
    let spans = vec![
        span("s", None, "agent_session", 100, vec![("room_id", "RM_1"), ("lk.agent_name", "bot")]),
        span("u", Some("s"), "user_turn", 200, vec![("lk.participant_identity", "caller")]),
        span("f", Some("s"), "function_call", 300, vec![("lk.function_name", "lookup")]),
        span("g", Some("s"), "tool_call", 400, vec![]),
    ];
    let info = session_info(&spans);
    assert_eq!(info.room_id, "RM_1");
    assert_eq!(info.agent_name, "bot");
    assert_eq!(info.job_id, "");
    assert_eq!(info.session_start_ns, Some(100));
    assert_eq!(info.session_end_ns, Some(110));
    assert_eq!(info.participant_identity, "caller");
    let calls = tool_calls_from_spans(&spans);
    let names: Vec<&str> = calls.iter().map(|c| c.name.as_str()).collect();
    assert_eq!(names, vec!["lookup", "tool_call"]);
    assert_eq!(get_attr_string(&spans[0].attributes, "missing"), "");
}

#[test]
fn agent_turn_parts_found_in_children_and_grandchildren() {
    let spans = vec![
        span("t", None, "agent_turn", 0, vec![]),
        span("n", Some("t"), "agent_turn_inner", 1, vec![]),
        span("l", Some("n"), "llm_node", 2, vec![]),
        span("r", Some("t"), "tts_request", 3, vec![]),
        span("q", Some("n"), "tts_node", 4, vec![]),
        span("t2", None, "agent_turn", 5, vec![]),
    ];
    let parts = agent_turn_parts(&spans);
    assert_eq!(parts.len(), 2);
    assert_eq!(parts[0].agent_turn, 0);
    assert_eq!(parts[0].llm, Some(2));
    assert_eq!(parts[0].tts, Some(3));
    assert_eq!(parts[0].speaking, None);
    assert_eq!(parts[1].agent_turn, 5);
    assert_eq!(parts[1].llm, None);
}

#[test]
fn agent_runs_open_and_close() {
    let logs = vec![
        log(10, "INFO", "a", "Executing agent run for Greeter"),
        log(20, "INFO", "a", "Executing agent run for Greeter"),
        log(30, "INFO", "a", "Executing agent run for Billing "),
        log(40, "INFO", "a", "unrelated"),
    ];
    let runs = extract_agent_runs(&logs, 100);
    assert_eq!(runs.len(), 2);
    assert_eq!(runs[0].name, "Greeter");
    assert_eq!((runs[0].start_ns, runs[0].end_ns), (10, Some(30)));
    assert_eq!(runs[1].name, "Billing");
    assert_eq!((runs[1].start_ns, runs[1].end_ns), (30, Some(100)));
}

use livekit_analyzer::data::{count_tool_errors, count_tts_retries, ConversationTurn, LogEntry};

fn log(message: &str) -> LogEntry {
    LogEntry { timestamp_ns: 0, severity: "WARN".to_string(), message: message.to_string(), logger_name: "x".to_string() }
}

#[test]
fn tts_retries_match_in_any_case() {
    let ws = vec![log("Failed To Synthesize Speech, retrying"), log("other"), log("failed to synthesize speech")];
    assert_eq!(count_tts_retries(&ws), 2);
    assert_eq!(count_tts_retries(&Vec::new()), 0);
}

#[test]
fn tool_errors_match_tool_or_probook() {
    let es = vec![log("TOOL failed"), log("PROBOOK timeout"), log("probook lower"), log("nothing")];
    assert_eq!(count_tool_errors(&es), 2);
}

#[test]
fn turn_text_joins_with_spaces() {
    let t = ConversationTurn {
        id: "1".to_string(),
        turn_type: "message".to_string(),
        role: None,
        content: vec!["a".to_string(), "".to_string(), "b".to_string()],
        interrupted: false,
        created_at: None,
        metrics: None,
        extra: Vec::new(),
    };
    assert_eq!(t.text(), "a  b");
}

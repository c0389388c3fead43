use livekit_analyzer::analysis::{analyze_call, LoadError};

const CHAT: &str = r#"{"items": [
    {"id": "a", "type": "message", "role": "user", "content": ["hello", "there"]},
    {"id": "b", "type": "message", "role": "assistant", "content": "hi", "interrupted": true}
]}"#;

const LOGS: &str = r#"{"resourceLogs": [{"scopeLogs": [{"logRecords": [
    {"timeUnixNano": "2000", "severityText": "WARNING", "body": {"stringValue": "TOOL-TRACE tool=lookup"}},
    {"timeUnixNano": "1000", "severityText": "ERROR", "body": {"stringValue": "boom"}},
    {"timeUnixNano": "3000", "severityText": "INFO", "body": {"stringValue": "fine"}}
]}]}]}"#;

const TRACES: &str = r#"{"resourceSpans": [{"scopeSpans": [{"spans": [
    {"spanId": "s1", "name": "agent_session", "startTimeUnixNano": "100", "endTimeUnixNano": 900,
     "attributes": [{"key": "room_id", "value": {"stringValue": "RM_1"}}]},
    {"spanId": "s2", "name": "agent_turn", "startTimeUnixNano": "200", "endTimeUnixNano": 400, "attributes": []}
]}]}]}"#;

#[test]
fn call_files_are_read_into_records() {
    let c = analyze_call(Some(CHAT), Some(LOGS), Some(TRACES)).expect("readable files");
    assert_eq!(c.turns.len(), 2);
    assert_eq!(c.turns[0].text(), "hello there");
    assert!(c.turns[1].interrupted);
    assert_eq!(c.logs.len(), 3);
    assert_eq!(c.logs[0].message, "boom");
    assert_eq!(c.errors.len(), 1);
    assert_eq!(c.errors[0].message, "boom");
    assert_eq!(c.warnings.len(), 1);
    assert_eq!(c.warnings[0].message, "TOOL-TRACE tool=lookup");
    assert_eq!(c.spans.len(), 2);
    assert_eq!(c.session.room_id, "RM_1");
    assert_eq!(c.session.session_start_ns, Some(100));
    assert_eq!(c.session.session_end_ns, Some(900));
    assert_eq!(c.turn_parts.len(), 1);
    assert_eq!(c.tool_calls.len(), 1);
    assert_eq!(c.tool_calls[0].name, "lookup");
    assert!(c.llm_turns.is_empty());
}

#[test]
fn missing_files_give_empty_records() {
    let c = analyze_call(None, None, None).expect("nothing to read");
    assert!(c.turns.is_empty());
    assert!(c.logs.is_empty());
    assert!(c.spans.is_empty());
    assert!(c.tool_calls.is_empty());
    assert_eq!(c.system_prompt, "");
}

#[test]
fn unparsable_files_are_named_in_order() {
    assert!(matches!(analyze_call(Some("{"), Some("["), None), Err(LoadError::ChatHistory)));
    assert!(matches!(analyze_call(Some(CHAT), Some("[1,"), Some("x")), Err(LoadError::Logs)));
    assert!(matches!(analyze_call(None, Some(LOGS), Some("{\"a\": }")), Err(LoadError::Traces)));
}

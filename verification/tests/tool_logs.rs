use livekit_analyzer::data::LogEntry;
use livekit_analyzer::ui::tools::{extract_tool_args, find_tool_error};

fn log(ts: i64, message: &str) -> LogEntry {
    LogEntry { timestamp_ns: ts, severity: "ERROR".to_string(), message: message.to_string(), logger_name: "x".to_string() }
}

const S: i64 = 1_000_000_000;

#[test]
fn tool_error_within_five_seconds() {
    let logs = vec![
        log(0, "PROBOOK_FAILURE create_customer_tool early"),
        log(11 * S, "PROBOOK_FAILURE other_tool"),
        log(12 * S, "PROBOOK_FAILURE while create_customer ran"),
        log(13 * S, "PROBOOK_FAILURE create_customer_tool again"),
    ];
    assert_eq!(find_tool_error(&logs, "create_customer_tool", 10 * S).as_deref(), Some("PROBOOK_FAILURE while create_customer ran"));
    assert_eq!(find_tool_error(&logs, "create_customer_tool", 20 * S), None);
    assert_eq!(find_tool_error(&logs, "lookup", 10 * S), None);
}

#[test]
fn tool_error_window_ends_at_five_seconds() {
    let logs = vec![log(15 * S, "PROBOOK_FAILURE lookup"), log(15 * S + 1, "PROBOOK_FAILURE lookup late")];
    assert_eq!(find_tool_error(&logs, "lookup", 10 * S).as_deref(), Some("PROBOOK_FAILURE lookup"));
    assert_eq!(find_tool_error(&logs[1..].to_vec(), "lookup", 10 * S), None);
}

#[test]
fn args_up_to_the_traceback() {
    let logs = vec![log(9 * S, "call failed args: {'a': 1}  \nTraceback (most recent call last):\n x")];
    assert_eq!(extract_tool_args(&logs, 10 * S), Ok(Some("{'a': 1}".to_string())));
}

#[test]
fn args_without_traceback_are_trimmed() {
    let logs = vec![log(8 * S, "args: too early"), log(10 * S, "x args:   {'b': 2}   ")];
    assert_eq!(extract_tool_args(&logs, 10 * S), Ok(Some("{'b': 2}".to_string())));
    assert_eq!(extract_tool_args(&logs, 30 * S), Ok(None));
}

#[test]
fn long_args_are_cut_to_two_thousand_bytes() {
    let long = format!("args:{}", "x".repeat(2500));
    let logs = vec![log(10 * S, &long)];
    assert_eq!(extract_tool_args(&logs, 10 * S).unwrap().unwrap().len(), 2000);
    let cut = format!("args:{}é{}", "y".repeat(1999), "z".repeat(10));
    assert_eq!(extract_tool_args(&vec![log(10 * S, &cut)], 10 * S), Err(()));
}

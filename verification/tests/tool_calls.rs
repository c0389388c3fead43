use livekit_analyzer::analysis::{LogToolCall, SpanToolCall};
use livekit_analyzer::toolcalls::{data_file_indices, merge_tool_calls};

fn span_call(name: &str, start_ns: i64, end_ns: i64) -> SpanToolCall {
    SpanToolCall { name: name.to_string(), start_ns, end_ns }
}

fn log_call(name: &str, timestamp_ns: i64) -> LogToolCall {
    LogToolCall { name: name.to_string(), timestamp_ns }
}

#[test]
fn merged_calls_are_ordered_and_deduplicated() {
    let spans = vec![span_call("lookup", 2_000_000_000, 2_300_000_000), span_call("book", 5_000_000_000, 5_100_000_000)];
    let logs = vec![log_call("lookup", 2_200_000_000), log_call("transfer", 1_000_000_000)];
    let merged = merge_tool_calls(&spans, &logs);
    let names: Vec<&str> = merged.iter().map(|c| c.name.as_str()).collect();
    assert_eq!(names, vec!["transfer", "lookup", "book"]);
    assert_eq!(merged[1].end_ns, 2_300_000_000);
    assert_eq!(merged[0].start_ns, merged[0].end_ns);
}

#[test]
fn calls_half_a_second_apart_are_kept() {
    let spans = vec![span_call("lookup", 0, 10)];
    let logs = vec![log_call("lookup", 500_000_000), log_call("lookup", 499_999_999)];
    let merged = merge_tool_calls(&spans, &logs);
    // 0 and 499_999_999 are one call; 500_000_000 is compared with the kept 0.
    assert_eq!(merged.len(), 2);
    assert_eq!(merged[1].start_ns, 500_000_000);
}

#[test]
fn repeats_compare_with_the_last_kept_call() {
    let logs = vec![log_call("a", 0), log_call("a", 400_000_000), log_call("a", 800_000_000)];
    let merged = merge_tool_calls(&Vec::new(), &logs);
    assert_eq!(merged.len(), 2);
    assert_eq!(merged[1].start_ns, 800_000_000);
}

#[test]
fn different_names_are_not_merged() {
    let logs = vec![log_call("a", 0), log_call("b", 1)];
    assert_eq!(merge_tool_calls(&Vec::new(), &logs).len(), 2);
}

#[test]
fn data_files_are_the_first_matching_json_files() {
    let names: Vec<String> = ["readme.txt", "p_1_RM_2_logs.json", "logs.txt", "traces.json", "chat_history.json", "more_logs.json", ".json"]
        .iter()
        .map(|s| s.to_string())
        .collect();
    let f = data_file_indices(&names);
    assert_eq!(f.logs, Some(1));
    assert_eq!(f.traces, Some(3));
    assert_eq!(f.chat_history, Some(4));
    let none = data_file_indices(&vec![".json".to_string(), "spans.json".to_string()]);
    assert_eq!(none.logs, None);
    assert_eq!(none.traces, None);
}

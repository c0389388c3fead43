use livekit_analyzer::format::{truncate, truncate_short, word_wrap};
use livekit_analyzer::thresholds::{cause_hint, cause_label, is_key_span};
use livekit_analyzer::timeline::{chrono_format_timestamp, is_leap_year, zero_pad};
use livekit_analyzer::ui::tools::{format_error, format_python_dict};
use livekit_analyzer::ui::transcript::truncate_str;
use livekit_analyzer::ui::truncate as ui_truncate;

#[test]
fn truncate_keeps_short_text() {
    assert_eq!(truncate("hello", 10), "hello");
    assert_eq!(truncate("hello", 5), "hello");
}

#[test]
fn truncate_cuts_long_text_with_ellipsis() {
    assert_eq!(truncate("hello world", 8), "hello...");
    assert_eq!(truncate("hello world", 8).chars().count(), 8);
    assert_eq!(truncate("abcdef", 2), "...");
}

#[test]
fn truncate_short_uses_fifty() {
    let long = "x".repeat(60);
    let t = truncate_short(&long);
    assert_eq!(t.len(), 50);
    assert!(t.ends_with("..."));
    assert_eq!(truncate_short("short"), "short");
}

#[test]
fn ui_truncate_counts_characters() {
    assert_eq!(ui_truncate("héllo wörld", 8), "héllo...");
    assert_eq!(ui_truncate("héllo", 5), "héllo");
}

#[test]
fn transcript_truncate_counts_bytes() {
    assert_eq!(truncate_str("abcdefghij", 6), "abc...");
    assert_eq!(truncate_str("abc", 6), "abc");
}

#[test]
fn word_wrap_breaks_on_width() {
    let lines = word_wrap("the quick brown fox", 12, "  ");
    assert_eq!(lines, vec!["  the quick".to_string(), "  brown fox".to_string()]);
    let narrow = word_wrap("the quick brown fox", 10, "  ");
    assert_eq!(narrow.len(), 4);
    assert_eq!(narrow[0], "  the");
}

#[test]
fn word_wrap_empty_text() {
    let lines = word_wrap("", 10, "> ");
    assert!(lines.is_empty());
}

#[test]
fn key_spans_and_causes() {
    assert!(is_key_span("llm_node"));
    assert!(is_key_span("tool_call"));
    assert!(!is_key_span("agent_speaking"));
    assert_eq!(cause_label("OVERHEAD"), "PROCESSING GAPS");
    assert_eq!(cause_label("LLM"), "LLM");
    assert_eq!(cause_label("other"), "UNKNOWN");
    assert_eq!(cause_hint("TTS"), " (speech synthesis)");
    assert_eq!(cause_hint("STT"), "");
}

#[test]
fn leap_years() {
    assert!(is_leap_year(2024));
    assert!(!is_leap_year(2023));
    assert!(!is_leap_year(1900));
    assert!(is_leap_year(2000));
    assert!(is_leap_year(-4));
}

#[test]
fn utc_format_of_epoch_and_known_times() {
    assert_eq!(chrono_format_timestamp(0), "1970-01-01 00:00:00 UTC");
    assert_eq!(chrono_format_timestamp(86_400 * 365), "1971-01-01 00:00:00 UTC");
    assert_eq!(chrono_format_timestamp(951_782_400), "2000-02-29 00:00:00 UTC");
    assert_eq!(chrono_format_timestamp(1_700_000_000), "2023-11-14 22:13:20 UTC");
}

#[test]
fn utc_format_before_epoch_keeps_signs() {
    assert_eq!(chrono_format_timestamp(-1), "1970-01-01 00:00:-1 UTC");
}

#[test]
fn zero_padding_with_sign() {
    assert_eq!(zero_pad(5, 2), "05");
    assert_eq!(zero_pad(-5, 4), "-005");
    assert_eq!(zero_pad(123, 2), "123");
}

#[test]
fn format_error_plain_message_is_chunked() {
    let lines = format_error("abcdefgh", 3);
    assert_eq!(lines, vec!["abc".to_string(), "def".to_string(), "gh".to_string()]);
}

#[test]
fn format_error_tool_failure_layout() {
    let e = "x PROBOOK_FAILURE] ValueError | bad input | args: {} Traceback (most recent) >> File a.py >>   >> line 3";
    let lines = format_error(e, 80);
    assert_eq!(
        lines,
        vec![
            "Type: ValueError".to_string(),
            "Message: bad input".to_string(),
            String::new(),
            "Traceback:".to_string(),
            "  Traceback (most recent)".to_string(),
            "  File a.py".to_string(),
            "  line 3".to_string(),
        ]
    );
}

#[test]
fn format_error_cuts_long_traceback_lines() {
    let e = "PROBOOK_FAILURE] T | m args: x Traceback abcdefghijklmnop";
    let lines = format_error(e, 10);
    assert_eq!(lines[4], "  Trace...");
}

#[test]
fn format_error_without_pipe_is_empty() {
    assert!(format_error("PROBOOK_FAILURE] no pipe here", 40).is_empty());
    assert_eq!(format_error("PROBOOK_FAILURE] T | no args", 40), vec!["Type: T".to_string()]);
}

#[test]
fn python_dict_one_line_per_item() {
    let lines = format_python_dict("{'a': 1, 'b': [1, 2], 'c': 'x'}", 40);
    assert_eq!(lines, vec!["'a': 1".to_string(), "'b': [1, 2]".to_string(), "'c': 'x'".to_string()]);
}

#[test]
fn python_dict_long_items() {
    let s = format!("{{'key': '{}', 'last': '{}'}}", "a".repeat(40), "b".repeat(32));
    let lines = format_python_dict(&s, 20);
    assert_eq!(lines[0], format!("'key': '{}...", "a".repeat(19)));
    assert_eq!(lines[1], "'last': [truncated]");
}

#[test]
fn python_dict_long_item_without_key() {
    let lines = format_python_dict("{abcdefghijklmnop, x}", 10);
    assert_eq!(lines, vec!["abcdefg...".to_string(), "x".to_string()]);
}

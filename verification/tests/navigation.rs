use livekit_analyzer::app::{App, LatencySortMode, LogFilter, SpanFilter, View, ViewContent};
use livekit_analyzer::data::LogEntry;
use livekit_analyzer::events::{handle_key_event, EventResult, KeyCode, KeyPress};

fn log(sev: &str, msg: &str) -> LogEntry {
    LogEntry {
        timestamp_ns: 0,
        severity: sev.to_string(),
        message: msg.to_string(),
        logger_name: "agent".to_string(),
    }
}

fn content() -> ViewContent {
    let logs = vec![log("ERROR", "a"), log("INFO", "b"), log("WARNING", "c"), log("WARN", "d")];
    ViewContent {
        errors: vec![log("ERROR", "a")],
        warnings: vec![log("WARNING", "c"), log("WARN", "d")],
        logs,
        spans: Vec::new(),
        turn_count: 5,
        llm_turn_count: 2,
        tool_call_count: 0,
        pipeline_cycle_count: 1,
        slow_turn_counts: None,
    }
}

fn key(code: KeyCode) -> KeyPress {
    KeyPress { code, control: false, shift: false }
}

#[test]
fn view_order_and_labels() {
    let all = View::all();
    assert_eq!(all.len(), 9);
    let labels: Vec<&str> = all.iter().map(|v| v.label()).collect();
    assert_eq!(labels, vec!["Overview", "Transcript", "Latency", "Charts", "Agents", "Tools", "Context", "Logs", "Spans"]);
}

#[test]
fn view_hotkeys_round_trip() {
    for v in View::all() {
        let c = v.hotkey();
        assert_eq!(View::from_hotkey(c), Some(v));
    }
    assert_eq!(View::Overview.hotkey(), '1');
    assert_eq!(View::Spans.hotkey(), '9');
    assert_eq!(View::from_hotkey('0'), None);
    assert_eq!(View::from_hotkey('x'), None);
}

#[test]
fn view_next_prev_wrap_and_invert() {
    assert_eq!(View::Spans.next(), View::Overview);
    assert_eq!(View::Overview.prev(), View::Spans);
    for v in View::all() {
        assert_eq!(v.next().prev(), v);
        assert_eq!(v.prev().next(), v);
    }
    let mut v = View::Latency;
    for _ in 0..9 {
        v = v.next();
    }
    assert_eq!(v, View::Latency);
}

#[test]
fn filters_cycle() {
    assert_eq!(LogFilter::All.cycle(), LogFilter::ErrorsOnly);
    assert_eq!(LogFilter::ErrorsOnly.cycle(), LogFilter::WarningsOnly);
    assert_eq!(LogFilter::WarningsOnly.cycle(), LogFilter::All);
    assert_eq!(LogFilter::All.label(), "All");
    assert_eq!(SpanFilter::KeySpans.toggle(), SpanFilter::AllSpans);
    assert_eq!(SpanFilter::AllSpans.toggle(), SpanFilter::KeySpans);
    assert_eq!(LatencySortMode::ByLatency.cycle(), LatencySortMode::ByTurn);
    assert_eq!(LatencySortMode::ByTTS.cycle(), LatencySortMode::ByLatency);
}

#[test]
fn new_app_starts_on_overview() {
    let app = App::new(content());
    assert_eq!(app.current_view, View::Overview);
    assert!(!app.show_help);
    assert_eq!(app.current_scroll(), 0);
    assert_eq!(app.log_filter, LogFilter::All);
    assert_eq!(app.span_filter, SpanFilter::KeySpans);
}

#[test]
fn filtered_logs_follow_filter() {
    let mut app = App::new(content());
    assert_eq!(app.filtered_logs().len(), 3);
    app.cycle_log_filter();
    assert_eq!(app.filtered_logs().len(), 1);
    app.cycle_log_filter();
    assert_eq!(app.filtered_logs().len(), 2);
}

#[test]
fn scrolling_stays_within_limits() {
    let mut app = App::new(content());
    app.set_view(View::Transcript);
    assert_eq!(app.max_scroll(), 4);
    app.scroll_down(10);
    assert_eq!(app.current_scroll(), 4);
    app.scroll_up(1);
    assert_eq!(app.current_scroll(), 3);
    app.scroll_up(10);
    assert_eq!(app.current_scroll(), 0);
    app.scroll_down(2);
    app.scroll_up(2);
    assert_eq!(app.current_scroll(), 0);
}

#[test]
fn paging_moves_by_viewport_minus_two() {
    let mut app = App::new(content());
    app.set_view(View::Transcript);
    app.page_down(4);
    assert_eq!(app.current_scroll(), 2);
    app.page_up(4);
    assert_eq!(app.current_scroll(), 0);
}

#[test]
fn keys_switch_views_and_quit() {
    let mut app = App::new(content());
    assert_eq!(handle_key_event(&mut app, key(KeyCode::Tab), 20), EventResult::Continue);
    assert_eq!(app.current_view, View::Transcript);
    handle_key_event(&mut app, key(KeyCode::BackTab), 20);
    assert_eq!(app.current_view, View::Overview);
    handle_key_event(&mut app, key(KeyCode::Char('8')), 20);
    assert_eq!(app.current_view, View::Logs);
    assert_eq!(handle_key_event(&mut app, key(KeyCode::Char('q')), 20), EventResult::Quit);
    let ctrl_c = KeyPress { code: KeyCode::Char('c'), control: true, shift: false };
    assert_eq!(handle_key_event(&mut app, ctrl_c, 20), EventResult::Quit);
}

#[test]
fn help_overlay_takes_keys() {
    let mut app = App::new(content());
    handle_key_event(&mut app, key(KeyCode::Char('?')), 20);
    assert!(app.show_help);
    assert_eq!(handle_key_event(&mut app, key(KeyCode::Char('8')), 20), EventResult::Continue);
    assert_eq!(app.current_view, View::Overview);
    assert!(!app.show_help);
    handle_key_event(&mut app, key(KeyCode::Char('?')), 20);
    assert!(app.show_help);
    assert_eq!(handle_key_event(&mut app, key(KeyCode::Char('q')), 20), EventResult::Continue);
    assert!(!app.show_help);
}

#[test]
fn any_key_closes_help() {
    let mut app = App::new(content());
    handle_key_event(&mut app, key(KeyCode::Char('?')), 20);
    assert!(app.show_help);
    assert_eq!(handle_key_event(&mut app, key(KeyCode::Char('x')), 20), EventResult::Continue);
    assert!(!app.show_help);
    assert_eq!(app.current_view, View::Overview);
    assert_eq!(app.overview_scroll, 0);
}

#[test]
fn home_and_end_in_tools_view() {
    let mut c = content();
    c.tool_call_count = 7;
    let mut app = App::new(c);
    handle_key_event(&mut app, key(KeyCode::Char('6')), 20);
    assert_eq!(app.current_view, View::Tools);
    handle_key_event(&mut app, key(KeyCode::End), 20);
    assert_eq!(app.tools_scroll, 6);
    handle_key_event(&mut app, key(KeyCode::Home), 20);
    assert_eq!(app.tools_scroll, 0);
    handle_key_event(&mut app, key(KeyCode::Char('G')), 20);
    assert_eq!(app.tools_scroll, 6);
    handle_key_event(&mut app, key(KeyCode::Char('g')), 20);
    assert_eq!(app.tools_scroll, 0);
}

#[test]
fn filter_key_resets_log_scroll() {
    let mut app = App::new(content());
    handle_key_event(&mut app, key(KeyCode::Char('8')), 20);
    handle_key_event(&mut app, key(KeyCode::Char('j')), 20);
    assert_eq!(app.logs_scroll, 1);
    handle_key_event(&mut app, key(KeyCode::Char('f')), 20);
    assert_eq!(app.log_filter, LogFilter::ErrorsOnly);
    assert_eq!(app.logs_scroll, 0);
}

#[test]
fn end_and_home_jump() {
    let mut app = App::new(content());
    handle_key_event(&mut app, key(KeyCode::Char('2')), 20);
    handle_key_event(&mut app, key(KeyCode::End), 20);
    assert_eq!(app.transcript_scroll, 4);
    handle_key_event(&mut app, key(KeyCode::Char('g')), 20);
    assert_eq!(app.transcript_scroll, 0);
}

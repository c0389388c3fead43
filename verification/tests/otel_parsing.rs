use livekit_analyzer::json::{Json, JsonNumber};
use livekit_analyzer::llm::{extract_system_prompt, extract_text_from_otel_value, parse_llm_chat_ctx, parse_llm_turns_checked, parse_llm_turns_from_traces};
use livekit_analyzer::parser::{parse_logs, parse_otel_timestamp, parse_otel_value, parse_traces};
use livekit_analyzer::strings::{i64_to_text, parse_i64, parse_u64};

fn s(v: &str) -> Json {
    Json::Str(v.to_string())
}

fn num(n: i64) -> Json {
    Json::Number(JsonNumber { int: Some(n), uint: if n >= 0 { Some(n as u64) } else { None }, text: n.to_string() })
}

fn obj(entries: Vec<(&str, Json)>) -> Json {
    Json::Object(entries.into_iter().map(|(k, v)| (k.to_string(), v)).collect())
}

fn arr(items: Vec<Json>) -> Json {
    Json::Array(items)
}

fn record(ts: Json, sev: Option<&str>, msg: &str) -> Json {
    let mut e = vec![("timeUnixNano", ts), ("body", obj(vec![("stringValue", s(msg))]))];
    if let Some(sv) = sev {
        e.push(("severityText", s(sv)));
    }
    obj(e)
}

fn logs_doc() -> Json {
    let first_records = arr(vec![record(s("300"), Some("ERROR"), "late"), record(num(100), None, "early")]);
    let first_scope = obj(vec![("scope", obj(vec![("name", s("livekit.agents"))])), ("logRecords", first_records)]);
    let second_records = arr(vec![record(s("200"), Some("WARN"), "middle"), record(s("bad"), None, "dropped")]);
    let second_scope = obj(vec![("logRecords", second_records)]);
    let resource = obj(vec![("scopeLogs", arr(vec![first_scope, second_scope]))]);
    obj(vec![("resourceLogs", arr(vec![resource]))])
}

fn kv(key: &str, value: Json) -> Json {
    obj(vec![("key", s(key)), ("value", value)])
}

fn otel_str(v: &str) -> Json {
    obj(vec![("stringValue", s(v))])
}

fn values(items: Vec<Json>) -> Json {
    obj(vec![("values", arr(items))])
}

fn chat_item(role: &str, content: &str) -> Json {
    let text = obj(vec![("arrayValue", values(vec![otel_str(content)]))]);
    let fields = values(vec![kv("role", otel_str(role)), kv("content", text)]);
    obj(vec![("kvlistValue", fields)])
}

fn chat_ctx(items: Vec<Json>) -> Json {
    let list = obj(vec![("arrayValue", values(items))]);
    obj(vec![("kvlistValue", values(vec![kv("items", list)]))])
}

fn span(id: &str, name: &str, start: i64, end: i64, attrs: Vec<Json>) -> Json {
    obj(vec![
        ("spanId", s(id)),
        ("name", s(name)),
        ("startTimeUnixNano", s(&start.to_string())),
        ("endTimeUnixNano", num(end)),
        ("attributes", arr(attrs)),
    ])
}

fn traces_doc() -> Json {
    let ctx = chat_ctx(vec![chat_item("system", "Be brief."), chat_item("user", "hello there")]);
    let llm_attrs = vec![kv("lk.chat_ctx", ctx), kv("lk.response.text", otel_str("Hi!"))];
    let count = obj(vec![("intValue", s("42"))]);
    let session_attrs = vec![kv("room_id", otel_str("RM_1")), kv("count", count)];
    let broken = obj(vec![("spanId", s("c")), ("name", s("broken"))]);
    let spans = arr(vec![
        span("b", "llm_node", 2_000, 3_000, llm_attrs),
        span("a", "agent_session", 1_000, 9_000, session_attrs),
        broken,
    ]);
    let scope = obj(vec![("spans", spans)]);
    let resource = obj(vec![("scopeSpans", arr(vec![scope]))]);
    obj(vec![("resourceSpans", arr(vec![resource]))])
}

#[test]
fn integers_parse_and_print() {
    assert_eq!(parse_i64("-42"), Some(-42));
    assert_eq!(parse_i64("+7"), Some(7));
    assert_eq!(parse_i64("9223372036854775807"), Some(i64::MAX));
    assert_eq!(parse_i64("-9223372036854775808"), Some(i64::MIN));
    assert_eq!(parse_i64("9223372036854775808"), None);
    assert_eq!(parse_i64("-"), None);
    assert_eq!(parse_i64("1x"), None);
    assert_eq!(parse_u64("18446744073709551615"), Some(u64::MAX));
    assert_eq!(parse_u64("-1"), None);
    for n in [0i64, 5, -5, 1234567890123, i64::MIN, i64::MAX] {
        assert_eq!(parse_i64(&i64_to_text(n)), Some(n));
    }
}

#[test]
fn timestamps_from_text_or_numbers() {
    assert_eq!(parse_otel_timestamp(Some(&s("1700000000000000000"))), Some(1_700_000_000_000_000_000));
    assert_eq!(parse_otel_timestamp(Some(&num(12))), Some(12));
    assert_eq!(parse_otel_timestamp(Some(&s("x"))), None);
    assert_eq!(parse_otel_timestamp(Some(&Json::Null)), None);
    assert_eq!(parse_otel_timestamp(None), None);
}

#[test]
fn logs_are_parsed_and_ordered_by_time() {
    let logs = parse_logs(&logs_doc());
    assert_eq!(logs.len(), 3);
    let msgs: Vec<&str> = logs.iter().map(|l| l.message.as_str()).collect();
    assert_eq!(msgs, vec!["early", "middle", "late"]);
    assert_eq!(logs[0].severity, "INFO");
    assert_eq!(logs[0].logger_name, "livekit.agents");
    assert_eq!(logs[1].logger_name, "unknown");
    assert_eq!(logs[2].timestamp_ns, 300);
}

#[test]
fn logs_without_resource_list_are_empty() {
    assert!(parse_logs(&obj(vec![])).is_empty());
}

#[test]
fn spans_are_parsed_and_ordered_by_start() {
    let spans = parse_traces(&traces_doc());
    assert_eq!(spans.len(), 2);
    assert_eq!(spans[0].name, "agent_session");
    assert_eq!(spans[1].name, "llm_node");
    assert_eq!(spans[0].start_time_ns, 1_000);
    assert_eq!(spans[0].end_time_ns, 9_000);
    assert_eq!(spans[0].parent_span_id, None);
    let attrs = &spans[0].attributes;
    assert_eq!(attrs.len(), 2);
    assert_eq!(attrs[0].0, "room_id");
    assert!(matches!(&attrs[0].1, Json::Str(v) if v == "RM_1"));
    assert!(matches!(&attrs[1].1, Json::Number(n) if n.int == Some(42) && n.text == "42"));
}

#[test]
fn otel_values_become_plain_json() {
    assert!(matches!(parse_otel_value(&otel_str("x")), Json::Str(v) if v == "x"));
    assert!(matches!(parse_otel_value(&obj(vec![("intValue", num(-3))])), Json::Number(n) if n.int == Some(-3) && n.uint.is_none()));
    let d = obj(vec![("doubleValue", Json::Number(JsonNumber { int: None, uint: None, text: "0.5".to_string() }))]);
    assert!(matches!(parse_otel_value(&d), Json::Number(n) if n.int.is_none() && n.text == "0.5"));
    assert!(matches!(parse_otel_value(&obj(vec![("boolValue", Json::Bool(true))])), Json::Bool(true)));
    let entries = values(vec![kv("a", otel_str("1")), kv("a", otel_str("2")), kv("b", otel_str("3"))]);
    let kvl = obj(vec![("kvlistValue", entries)]);
    match parse_otel_value(&kvl) {
        Json::Object(es) => {
            assert_eq!(es.len(), 2);
            assert!(matches!(&es[0].1, Json::Str(v) if v == "2"));
        },
        _ => panic!("expected an object"),
    }
    let flag = obj(vec![("boolValue", Json::Bool(false))]);
    let a = obj(vec![("arrayValue", values(vec![otel_str("x"), flag]))]);
    assert!(matches!(parse_otel_value(&a), Json::Array(v) if v.len() == 2));
    assert!(matches!(parse_otel_value(&obj(vec![])), Json::Null));
}

#[test]
fn text_of_nested_values() {
    let inner = obj(vec![("kvlistValue", values(vec![kv("k", otel_str("b")), kv("k2", otel_str("c"))]))]);
    let v = obj(vec![("arrayValue", values(vec![otel_str("a"), otel_str(""), inner]))]);
    assert_eq!(extract_text_from_otel_value(&v), "a b c");
    assert_eq!(extract_text_from_otel_value(&Json::Null), "");
}

#[test]
fn chat_context_size() {
    let ctx = chat_ctx(vec![chat_item("system", "Be brief."), chat_item("user", "hello there")]);
    assert_eq!(parse_llm_chat_ctx(&ctx), (2, 9 + 11));
    assert_eq!(parse_llm_chat_ctx(&Json::Null), (0, 0));
}

#[test]
fn system_prompt_of_first_llm_span() {
    assert_eq!(extract_system_prompt(&traces_doc()), "Be brief.");
    assert_eq!(extract_system_prompt(&obj(vec![])), "");
}

#[test]
fn llm_turns_from_spans() {
    let turns = parse_llm_turns_from_traces(&traces_doc());
    assert_eq!(turns.len(), 1);
    let t = &turns[0];
    assert_eq!(t.turn_index, 1);
    assert_eq!((t.start_ns, t.end_ns), (2_000, 3_000));
    assert_eq!(t.context_messages, 2);
    assert_eq!(t.context_chars, 20);
    assert_eq!(t.context_tokens_est, 5);
    assert_eq!(t.response_text, "Hi!");
    assert_eq!(t.response_chars, 3);
}

#[test]
fn checked_llm_turns_match_the_plain_ones() {
    let doc = traces_doc();
    let checked = parse_llm_turns_checked(&doc).unwrap();
    let plain = parse_llm_turns_from_traces(&doc);
    assert_eq!(checked.len(), plain.len());
    for (a, b) in checked.iter().zip(plain.iter()) {
        assert_eq!(a.context_messages, b.context_messages);
        assert_eq!(a.context_chars, b.context_chars);
        assert_eq!(a.response_text, b.response_text);
    }
}

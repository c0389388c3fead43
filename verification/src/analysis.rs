//! What the analysis reads from the logs and spans of a call: tool calls
//! named in log messages or recorded as spans, the session metadata, and
//! the spans that make up each agent turn.

use vstd::prelude::*;
use vstd::view::View as _;
use crate::data::{LogEntry, Span};
use crate::json::{Json, JsonModel, as_str, entry_index, entry_models, lemma_entry_index, lemma_entry_models, model, or_text};
use crate::parser::{SpanModel, span_model, span_models};
use crate::patterns::{Pattern, capture_group, compile_pattern, opt_seq, regex_capture, regex_compiles};
use crate::strings::{chars_contains, chars_of, contains_seq, str_eq};

verus! {

/// Pattern of a tool name in a trace line ("tool=NAME").
pub open spec fn tool_source() -> Seq<char> {
    "tool=(\\w+)"@
}

/// Pattern of a function name in a call line ("function_call: NAME").
pub open spec fn function_source() -> Seq<char> {
    "function[_\\s]*call[:\\s]+(\\w+)"@
}

/// The two tool-name patterns, each compiled where the `regex` crate
/// accepts it.
pub fn tool_call_patterns() -> (r: (Option<Pattern>, Option<Pattern>))
    ensures
        r.0 is Some <==> regex_compiles(tool_source()),
        r.0 matches Some(p) ==> p.source() == tool_source(),
        r.1 is Some <==> regex_compiles(function_source()),
        r.1 matches Some(p) ==> p.source() == function_source(),
{
    (compile_pattern("tool=(\\w+)"), compile_pattern("function[_\\s]*call[:\\s]+(\\w+)"))
}

/// A tool call found in a log message: its name and the log's time in
/// nanoseconds.
pub struct LogToolCall {
    pub name: String,
    pub timestamp_ns: i64,
}

/// The tool call named by one log message, if any. Agent-run messages name
/// none; a "TOOL-TRACE" line names the tool after "tool=", unless the name
/// looks like an agent's ("AI_CSR", "ENTRY", "MAIN"); another line that
/// mentions a function or tool call names the function after "call".
pub open spec fn log_tool_call(msg: Seq<char>, has_tool: bool, has_function: bool) -> Option<Seq<char>> {
    if contains_seq(msg, "Executing agent run for"@) {
        None
    } else if contains_seq(msg, "TOOL-TRACE"@) {
        if has_tool {
            match regex_capture(tool_source(), msg, 1) {
                Some(name) => if !contains_seq(name, "AI_CSR"@) && !contains_seq(name, "ENTRY"@) && !contains_seq(
                    name,
                    "MAIN"@,
                ) {
                    Some(name)
                } else {
                    None
                },
                None => None,
            }
        } else {
            None
        }
    } else if contains_seq(msg, "function_call"@) || contains_seq(msg, "tool_call"@) {
        if has_function {
            regex_capture(function_source(), msg, 1)
        } else {
            None
        }
    } else {
        None
    }
}

/// The tool calls named by a list of log messages, in order.
pub open spec fn spec_log_tool_calls(logs: Seq<LogEntry>, has_tool: bool, has_function: bool) -> Seq<(Seq<char>, int)>
    decreases logs.len(),
{
    if logs.len() == 0 {
        Seq::empty()
    } else {
        let done = spec_log_tool_calls(logs.drop_last(), has_tool, has_function);
        match log_tool_call(logs.last().message@, has_tool, has_function) {
            Some(name) => done.push((name, logs.last().timestamp_ns as int)),
            None => done,
        }
    }
}

pub open spec fn tool_call_views(v: Seq<LogToolCall>) -> Seq<(Seq<char>, int)> {
    v.map_values(|t: LogToolCall| (t.name@, t.timestamp_ns as int))
}

fn message_tool_call(tool_re: &Option<Pattern>, function_re: &Option<Pattern>, msg: &str) -> (r: Option<String>)
    requires
        tool_re matches Some(p) ==> p.source() == tool_source(),
        function_re matches Some(p) ==> p.source() == function_source(),
    ensures
        opt_seq(r) == log_tool_call(msg@, tool_re is Some, function_re is Some),
{
    let v = chars_of(msg);
    if chars_contains(&v, &chars_of("Executing agent run for")) {
        return None;
    }
    if chars_contains(&v, &chars_of("TOOL-TRACE")) {
        match tool_re {
            Some(p) => {
                let cap = capture_group(p, msg, 1);
                match cap {
                    Some(name) => {
                        let nv = chars_of(name.as_str());
                        if !chars_contains(&nv, &chars_of("AI_CSR")) && !chars_contains(&nv, &chars_of("ENTRY"))
                            && !chars_contains(&nv, &chars_of("MAIN")) {
                            Some(name)
                        } else {
                            None
                        }
                    },
                    None => None,
                }
            },
            None => None,
        }
    } else if chars_contains(&v, &chars_of("function_call")) || chars_contains(&v, &chars_of("tool_call")) {
        match function_re {
            Some(p) => capture_group(p, msg, 1),
            None => None,
        }
    } else {
        None
    }
}

/// The tool calls named in the log messages, with the logs' times.
pub fn tool_calls_from_logs(tool_re: &Option<Pattern>, function_re: &Option<Pattern>, logs: &Vec<LogEntry>) -> (calls: Vec<LogToolCall>)
    requires
        tool_re matches Some(p) ==> p.source() == tool_source(),
        function_re matches Some(p) ==> p.source() == function_source(),
    ensures
        tool_call_views(calls@) == spec_log_tool_calls(logs@, tool_re is Some, function_re is Some),
{
    let mut calls: Vec<LogToolCall> = Vec::new();
    let mut i: usize = 0;
    while i < logs.len()
        invariant
            0 <= i <= logs.len(),
            tool_re matches Some(p) ==> p.source() == tool_source(),
            function_re matches Some(p) ==> p.source() == function_source(),
            tool_call_views(calls@) == spec_log_tool_calls(logs@.take(i as int), tool_re is Some, function_re is Some),
        decreases logs.len() - i,
    {
        assert(logs@.take(i + 1).drop_last() =~= logs@.take(i as int));
        assert(logs@.take(i + 1).last() == logs@[i as int]);
        let log = &logs[i];
        let found = message_tool_call(tool_re, function_re, log.message.as_str());
        match found {
            Some(name) => {
                let ghost before = calls@;
                calls.push(LogToolCall { name, timestamp_ns: log.timestamp_ns });
                assert(tool_call_views(calls@) =~= tool_call_views(before).push(
                    (calls@.last().name@, log.timestamp_ns as int),
                ));
            },
            None => {},
        }
        i = i + 1;
    }
    assert(logs@.take(i as int) =~= logs@);
    calls
}

/// The text of a span attribute, empty when absent or not a string.
pub open spec fn attr_text(attrs: Seq<(Seq<char>, JsonModel)>, key: Seq<char>) -> Seq<char> {
    match entry_index(attrs, key, 0) {
        Some(i) => or_text(as_str(attrs[i].1), ""@),
        None => Seq::empty(),
    }
}

/// The text of a span attribute.
pub fn get_attr_string(attrs: &Vec<(String, Json)>, key: &str) -> (r: String)
    ensures
        r@ == attr_text(entry_models(attrs@), key@),
{
    proof {
        lemma_entry_models(attrs@);
    }
    let ghost es = entry_models(attrs@);
    let mut i: usize = 0;
    while i < attrs.len()
        invariant
            0 <= i <= attrs.len(),
            es == entry_models(attrs@),
            es.len() == attrs@.len(),
            forall|j: int| 0 <= j < attrs@.len() ==> #[trigger] es[j] == (attrs@[j].0@, model(attrs@[j].1)),
            entry_index(es, key@, 0) == entry_index(es, key@, i as int),
        decreases attrs.len() - i,
    {
        assert(es[i as int] == (attrs@[i as int].0@, model(attrs@[i as int].1)));
        if str_eq(attrs[i].0.as_str(), key) {
            assert(entry_index(es, key@, i as int) == Some(i as int));
            let v = crate::json::json_str(&attrs[i].1);
            return match v {
                Some(s) => String::from_str(s),
                None => {
                    proof {
                        reveal_strlit("");
                    }
                    String::from_str("")
                },
            };
        }
        i = i + 1;
    }
    String::new()
}

/// Index of the first span at or after `i` with the given name.
pub open spec fn span_named_from(spans: Seq<SpanModel>, name: Seq<char>, i: int) -> Option<int>
    decreases spans.len() - i,
{
    if i < 0 || i >= spans.len() {
        None
    } else if spans[i].name == name {
        Some(i)
    } else {
        span_named_from(spans, name, i + 1)
    }
}

/// What the session's spans tell of the call: the identifiers of the
/// "agent_session" span and its time range, and the participant of the
/// first "user_turn" span.
pub struct SessionInfo {
    pub room_id: String,
    pub job_id: String,
    pub agent_name: String,
    pub room_name: String,
    pub session_start_ns: Option<i64>,
    pub session_end_ns: Option<i64>,
    pub participant_identity: String,
}

pub open spec fn opt_int(o: Option<i64>) -> Option<int> {
    match o {
        Some(v) => Some(v as int),
        None => None,
    }
}

/// Metadata from the first "agent_session" span (empty texts and no times
/// when there is none) and the participant of the first "user_turn" span.
pub open spec fn session_info_ok(info: SessionInfo, spans: Seq<SpanModel>) -> bool {
    &&& match span_named_from(spans, "agent_session"@, 0) {
        Some(i) => {
            &&& info.room_id@ == attr_text(spans[i].attrs, "room_id"@)
            &&& info.job_id@ == attr_text(spans[i].attrs, "job_id"@)
            &&& info.agent_name@ == attr_text(spans[i].attrs, "lk.agent_name"@)
            &&& info.room_name@ == attr_text(spans[i].attrs, "lk.room_name"@)
            &&& opt_int(info.session_start_ns) == Some(spans[i].start)
            &&& opt_int(info.session_end_ns) == Some(spans[i].end)
        },
        None => {
            &&& info.room_id@ == Seq::<char>::empty()
            &&& info.job_id@ == Seq::<char>::empty()
            &&& info.agent_name@ == Seq::<char>::empty()
            &&& info.room_name@ == Seq::<char>::empty()
            &&& info.session_start_ns is None
            &&& info.session_end_ns is None
        },
    }
    &&& match span_named_from(spans, "user_turn"@, 0) {
        Some(i) => info.participant_identity@ == attr_text(spans[i].attrs, "lk.participant_identity"@),
        None => info.participant_identity@ == Seq::<char>::empty(),
    }
}

fn find_span_named(spans: &Vec<Span>, name: &str) -> (r: Option<usize>)
    ensures
        match r {
            Some(i) => span_named_from(span_models(spans@), name@, 0) == Some(i as int) && i < spans@.len(),
            None => span_named_from(span_models(spans@), name@, 0) is None,
        },
{
    let ghost sm = span_models(spans@);
    let mut i: usize = 0;
    while i < spans.len()
        invariant
            0 <= i <= spans.len(),
            sm == span_models(spans@),
            span_named_from(sm, name@, 0) == span_named_from(sm, name@, i as int),
        decreases spans.len() - i,
    {
        assert(sm[i as int] == span_model(spans@[i as int]));
        if str_eq(spans[i].name.as_str(), name) {
            return Some(i);
        }
        i = i + 1;
    }
    None
}

/// Extract the session metadata from the spans.
pub fn session_info(spans: &Vec<Span>) -> (info: SessionInfo)
    ensures
        session_info_ok(info, span_models(spans@)),
{
    let ghost sm = span_models(spans@);
    let session = find_span_named(spans, "agent_session");
    let mut info = SessionInfo {
        room_id: String::new(),
        job_id: String::new(),
        agent_name: String::new(),
        room_name: String::new(),
        session_start_ns: None,
        session_end_ns: None,
        participant_identity: String::new(),
    };
    match session {
        Some(i) => {
            let s = &spans[i];
            assert(sm[i as int] == span_model(*s));
            info.room_id = get_attr_string(&s.attributes, "room_id");
            info.job_id = get_attr_string(&s.attributes, "job_id");
            info.agent_name = get_attr_string(&s.attributes, "lk.agent_name");
            info.room_name = get_attr_string(&s.attributes, "lk.room_name");
            info.session_start_ns = Some(s.start_time_ns);
            info.session_end_ns = Some(s.end_time_ns);
        },
        None => {},
    }
    let user = find_span_named(spans, "user_turn");
    match user {
        Some(i) => {
            let s = &spans[i];
            assert(sm[i as int] == span_model(*s));
            info.participant_identity = get_attr_string(&s.attributes, "lk.participant_identity");
        },
        None => {},
    }
    info
}

/// A tool call recorded as a span: its name and time range in nanoseconds.
pub struct SpanToolCall {
    pub name: String,
    pub start_ns: i64,
    pub end_ns: i64,
}

pub open spec fn is_tool_span(s: SpanModel) -> bool {
    s.name == "function_call"@ || s.name == "tool_call"@
}

/// The tool calls among the spans, in order: each "function_call" or
/// "tool_call" span, named by its "lk.function_name" attribute, or by the
/// span's own name when that attribute is empty.
pub open spec fn spec_span_tool_calls(spans: Seq<SpanModel>) -> Seq<(Seq<char>, int, int)>
    decreases spans.len(),
{
    if spans.len() == 0 {
        Seq::empty()
    } else {
        let done = spec_span_tool_calls(spans.drop_last());
        let s = spans.last();
        if is_tool_span(s) {
            let n = attr_text(s.attrs, "lk.function_name"@);
            done.push((if n.len() == 0 { s.name } else { n }, s.start, s.end))
        } else {
            done
        }
    }
}

pub open spec fn span_tool_call_views(v: Seq<SpanToolCall>) -> Seq<(Seq<char>, int, int)> {
    v.map_values(|t: SpanToolCall| (t.name@, t.start_ns as int, t.end_ns as int))
}

/// The tool calls recorded as spans.
pub fn tool_calls_from_spans(spans: &Vec<Span>) -> (calls: Vec<SpanToolCall>)
    ensures
        span_tool_call_views(calls@) == spec_span_tool_calls(span_models(spans@)),
{
    let ghost sm = span_models(spans@);
    let mut calls: Vec<SpanToolCall> = Vec::new();
    let mut i: usize = 0;
    assert(sm.take(0) =~= Seq::<SpanModel>::empty());
    assert(span_tool_call_views(calls@) =~= Seq::<(Seq<char>, int, int)>::empty());
    while i < spans.len()
        invariant
            0 <= i <= spans.len(),
            sm == span_models(spans@),
            span_tool_call_views(calls@) == spec_span_tool_calls(sm.take(i as int)),
        decreases spans.len() - i,
    {
        assert(sm.take(i + 1).drop_last() =~= sm.take(i as int));
        assert(sm.take(i + 1).last() == span_model(spans@[i as int]));
        let s = &spans[i];
        if str_eq(s.name.as_str(), "function_call") || str_eq(s.name.as_str(), "tool_call") {
            let n = get_attr_string(&s.attributes, "lk.function_name");
            let name = if crate::strings::str_byte_len(n.as_str()) == 0 {
                proof {
                    crate::strings::lemma_byte_len_ge_len(n@);
                }
                s.name.clone()
            } else {
                proof {
                    if n@.len() == 0 {
                        assert(n@ =~= Seq::<char>::empty());
                        assert(vstd::utf8::encode_utf8(n@) =~= Seq::<u8>::empty());
                    }
                }
                n
            };
            let ghost before = calls@;
            calls.push(SpanToolCall { name, start_ns: s.start_time_ns, end_ns: s.end_time_ns });
            assert(span_tool_call_views(calls@) =~= span_tool_call_views(before).push(
                (calls@.last().name@, s.start_time_ns as int, s.end_time_ns as int),
            ));
        }
        i = i + 1;
    }
    assert(sm.take(i as int) =~= sm);
    calls
}

/// Indices, in order, of the spans among the first `n` whose parent is
/// `pid`.
pub open spec fn children_upto(spans: Seq<SpanModel>, pid: Seq<char>, n: int) -> Seq<int>
    decreases n,
{
    if n <= 0 {
        Seq::empty()
    } else if spans[n - 1].parent == Some(pid) {
        children_upto(spans, pid, n - 1).push(n - 1)
    } else {
        children_upto(spans, pid, n - 1)
    }
}

/// Indices, in order, of the children of the span with id `pid`.
pub open spec fn children_of(spans: Seq<SpanModel>, pid: Seq<char>) -> Seq<int> {
    children_upto(spans, pid, spans.len() as int)
}

/// The first of the given spans with the given name.
pub open spec fn first_named(spans: Seq<SpanModel>, idxs: Seq<int>, name: Seq<char>) -> Option<int>
    decreases idxs.len(),
{
    if idxs.len() == 0 {
        None
    } else if spans[idxs[0]].name == name {
        Some(idxs[0])
    } else {
        first_named(spans, idxs.drop_first(), name)
    }
}

/// The first of the given spans named `n1`, else the first named `n2`.
pub open spec fn first_either(spans: Seq<SpanModel>, idxs: Seq<int>, n1: Seq<char>, n2: Seq<char>) -> Option<int> {
    match first_named(spans, idxs, n1) {
        Some(i) => Some(i),
        None => first_named(spans, idxs, n2),
    }
}

/// Among the children of the given spans, taken in turn, the first match.
pub open spec fn grandchild_either(spans: Seq<SpanModel>, kids: Seq<int>, n1: Seq<char>, n2: Seq<char>) -> Option<int>
    decreases kids.len(),
{
    if kids.len() == 0 {
        None
    } else {
        match first_either(spans, children_of(spans, spans[kids[0]].id), n1, n2) {
            Some(i) => Some(i),
            None => grandchild_either(spans, kids.drop_first(), n1, n2),
        }
    }
}

/// The part of a span named `n1` (else `n2`): among its children, else
/// among the children of each child in turn.
pub open spec fn find_part(spans: Seq<SpanModel>, parent: int, n1: Seq<char>, n2: Seq<char>) -> Option<int> {
    let kids = children_of(spans, spans[parent].id);
    match first_either(spans, kids, n1, n2) {
        Some(i) => Some(i),
        None => grandchild_either(spans, kids, n1, n2),
    }
}

/// Indices, in order, of the spans among the first `n` with the given name.
pub open spec fn named_upto(spans: Seq<SpanModel>, name: Seq<char>, n: int) -> Seq<int>
    decreases n,
{
    if n <= 0 {
        Seq::empty()
    } else if spans[n - 1].name == name {
        named_upto(spans, name, n - 1).push(n - 1)
    } else {
        named_upto(spans, name, n - 1)
    }
}

/// The spans of one agent turn: the turn itself and its language-model,
/// speech-synthesis and speaking spans, by index.
pub struct TurnParts {
    pub agent_turn: usize,
    pub llm: Option<usize>,
    pub tts: Option<usize>,
    pub speaking: Option<usize>,
}

pub open spec fn opt_index(o: Option<usize>) -> Option<int> {
    match o {
        Some(i) => Some(i as int),
        None => None,
    }
}

/// The parts of each "agent_turn" span, in order: its "llm_node", its
/// "tts_node" (else "tts_request"), and its "agent_speaking" span.
pub open spec fn turn_parts_ok(parts: Seq<TurnParts>, spans: Seq<SpanModel>) -> bool {
    let turns = named_upto(spans, "agent_turn"@, spans.len() as int);
    &&& parts.len() == turns.len()
    &&& forall|k: int|
        0 <= k < parts.len() ==> {
            let t = turns[k];
            &&& (#[trigger] parts[k]).agent_turn == t
            &&& opt_index(parts[k].llm) == find_part(spans, t, "llm_node"@, "llm_node"@)
            &&& opt_index(parts[k].tts) == find_part(spans, t, "tts_node"@, "tts_request"@)
            &&& opt_index(parts[k].speaking) == find_part(spans, t, "agent_speaking"@, "agent_speaking"@)
        }
}

fn parent_is(s: &Span, pid: &str) -> (r: bool)
    ensures
        r == (span_model(*s).parent == Some(pid@)),
{
    match &s.parent_span_id {
        Some(p) => str_eq(p.as_str(), pid),
        None => false,
    }
}

fn children_exec(spans: &Vec<Span>, parent: usize) -> (kids: Vec<usize>)
    requires
        parent < spans@.len(),
    ensures
        kids@.map_values(|k: usize| k as int) == children_of(span_models(spans@), span_models(spans@)[parent as int].id),
        forall|j: int| 0 <= j < kids@.len() ==> #[trigger] kids@[j] < spans@.len(),
{
    let ghost sm = span_models(spans@);
    let pid = &spans[parent].span_id;
    assert(sm[parent as int].id == pid@);
    let mut kids: Vec<usize> = Vec::new();
    let mut i: usize = 0;
    while i < spans.len()
        invariant
            0 <= i <= spans.len(),
            sm == span_models(spans@),
            pid@ == sm[parent as int].id,
            parent < spans@.len(),
            kids@.map_values(|k: usize| k as int) == children_upto(sm, pid@, i as int),
            forall|j: int| 0 <= j < kids@.len() ==> #[trigger] kids@[j] < i,
        decreases spans.len() - i,
    {
        assert(sm[i as int] == span_model(spans@[i as int]));
        if parent_is(&spans[i], pid.as_str()) {
            let ghost before = kids@;
            kids.push(i);
            assert(kids@.map_values(|k: usize| k as int) =~= before.map_values(|k: usize| k as int).push(i as int));
        }
        i = i + 1;
    }
    kids
}

fn first_named_exec(spans: &Vec<Span>, idxs: &Vec<usize>, name: &str) -> (r: Option<usize>)
    requires
        forall|j: int| 0 <= j < idxs@.len() ==> #[trigger] idxs@[j] < spans@.len(),
    ensures
        opt_index(r) == first_named(span_models(spans@), idxs@.map_values(|k: usize| k as int), name@),
        r matches Some(i) ==> i < spans@.len(),
{
    let ghost sm = span_models(spans@);
    let ghost iv = idxs@.map_values(|k: usize| k as int);
    let mut i: usize = 0;
    assert(iv.skip(0) =~= iv);
    while i < idxs.len()
        invariant
            0 <= i <= idxs.len(),
            sm == span_models(spans@),
            iv == idxs@.map_values(|k: usize| k as int),
            forall|j: int| 0 <= j < idxs@.len() ==> #[trigger] idxs@[j] < spans@.len(),
            first_named(sm, iv, name@) == first_named(sm, iv.skip(i as int), name@),
        decreases idxs.len() - i,
    {
        let x = idxs[i];
        assert(iv.skip(i as int)[0] == x as int);
        assert(iv.skip(i as int).drop_first() =~= iv.skip(i + 1));
        assert(sm[x as int] == span_model(spans@[x as int]));
        if str_eq(spans[x].name.as_str(), name) {
            return Some(x);
        }
        i = i + 1;
    }
    assert(iv.skip(i as int) =~= Seq::<int>::empty());
    None
}

fn first_either_exec(spans: &Vec<Span>, idxs: &Vec<usize>, n1: &str, n2: &str) -> (r: Option<usize>)
    requires
        forall|j: int| 0 <= j < idxs@.len() ==> #[trigger] idxs@[j] < spans@.len(),
    ensures
        opt_index(r) == first_either(span_models(spans@), idxs@.map_values(|k: usize| k as int), n1@, n2@),
        r matches Some(i) ==> i < spans@.len(),
{
    let a = first_named_exec(spans, idxs, n1);
    match a {
        Some(i) => Some(i),
        None => first_named_exec(spans, idxs, n2),
    }
}

fn find_part_exec(spans: &Vec<Span>, parent: usize, n1: &str, n2: &str) -> (r: Option<usize>)
    requires
        parent < spans@.len(),
    ensures
        opt_index(r) == find_part(span_models(spans@), parent as int, n1@, n2@),
{
    let ghost sm = span_models(spans@);
    let kids = children_exec(spans, parent);
    let ghost kv = kids@.map_values(|k: usize| k as int);
    let direct = first_either_exec(spans, &kids, n1, n2);
    match direct {
        Some(i) => return Some(i),
        None => {},
    }
    let mut j: usize = 0;
    assert(kv.skip(0) =~= kv);
    while j < kids.len()
        invariant
            0 <= j <= kids.len(),
            sm == span_models(spans@),
            kv == kids@.map_values(|k: usize| k as int),
            kv == children_of(sm, sm[parent as int].id),
            forall|q: int| 0 <= q < kids@.len() ==> #[trigger] kids@[q] < spans@.len(),
            first_either(sm, kv, n1@, n2@) is None,
            grandchild_either(sm, kv, n1@, n2@) == grandchild_either(sm, kv.skip(j as int), n1@, n2@),
        decreases kids.len() - j,
    {
        let c = kids[j];
        assert(kv.skip(j as int)[0] == c as int);
        assert(kv.skip(j as int).drop_first() =~= kv.skip(j + 1));
        let gkids = children_exec(spans, c);
        let found = first_either_exec(spans, &gkids, n1, n2);
        match found {
            Some(i) => return Some(i),
            None => {},
        }
        j = j + 1;
    }
    assert(kv.skip(j as int) =~= Seq::<int>::empty());
    None
}

/// The spans of each agent turn, in order of the turns.
pub fn agent_turn_parts(spans: &Vec<Span>) -> (parts: Vec<TurnParts>)
    ensures
        turn_parts_ok(parts@, span_models(spans@)),
{
    let ghost sm = span_models(spans@);
    let mut parts: Vec<TurnParts> = Vec::new();
    let mut i: usize = 0;
    while i < spans.len()
        invariant
            0 <= i <= spans.len(),
            sm == span_models(spans@),
            parts@.len() == named_upto(sm, "agent_turn"@, i as int).len(),
            forall|k: int|
                0 <= k < parts@.len() ==> {
                    let t = named_upto(sm, "agent_turn"@, i as int)[k];
                    &&& (#[trigger] parts@[k]).agent_turn == t
                    &&& opt_index(parts@[k].llm) == find_part(sm, t, "llm_node"@, "llm_node"@)
                    &&& opt_index(parts@[k].tts) == find_part(sm, t, "tts_node"@, "tts_request"@)
                    &&& opt_index(parts@[k].speaking) == find_part(sm, t, "agent_speaking"@, "agent_speaking"@)
                },
        decreases spans.len() - i,
    {
        assert(sm[i as int] == span_model(spans@[i as int]));
        if str_eq(spans[i].name.as_str(), "agent_turn") {
            let llm = find_part_exec(spans, i, "llm_node", "llm_node");
            let tts = find_part_exec(spans, i, "tts_node", "tts_request");
            let speaking = find_part_exec(spans, i, "agent_speaking", "agent_speaking");
            parts.push(TurnParts { agent_turn: i, llm, tts, speaking });
            assert(named_upto(sm, "agent_turn"@, i + 1) == named_upto(sm, "agent_turn"@, i as int).push(i as int));
        } else {
            assert(named_upto(sm, "agent_turn"@, i + 1) == named_upto(sm, "agent_turn"@, i as int));
        }
        i = i + 1;
    }
    parts
}

} // verus!

verus! {

use crate::data::{ConversationTurn, is_error_log, is_error_severity, is_warning_log, is_warning_severity};
use crate::json::{json_text_parse, parse_json_text};
use crate::llm::{LlmTurn, LlmTurnModel, extract_system_prompt, llm_turns_fit, parse_llm_turns_checked, spec_llm_turns, spec_system_prompt, turn_models};
use crate::parser::{LogModel, TurnModel, log_model, log_models, parse_chat_history, parse_logs, parse_traces, spec_chat_history, spec_parse_logs, spec_parse_traces, turn_model};
use crate::toolcalls::{CallModel, ToolCall, call_models, dedup_calls, log_call_models, merge_tool_calls, sort_calls, span_call_models};

/// What is read from one call's exported files.
pub struct CallRecords {
    pub turns: Vec<ConversationTurn>,
    pub logs: Vec<LogEntry>,
    pub errors: Vec<LogEntry>,
    pub warnings: Vec<LogEntry>,
    pub spans: Vec<Span>,
    pub llm_turns: Vec<LlmTurn>,
    pub system_prompt: String,
    pub session: SessionInfo,
    pub tool_calls: Vec<ToolCall>,
    pub turn_parts: Vec<TurnParts>,
}

/// Which exported file could not be read as a call's data.
#[derive(Debug, Clone, Copy, PartialEq, Eq, Structural)]
pub enum LoadError {
    /// The chat history is not one JSON document.
    ChatHistory,
    /// The logs are not one JSON document.
    Logs,
    /// The traces are not one JSON document.
    Traces,
    /// The traces hold more language-model calls than can be counted.
    TooManyLlmTurns,
}

/// The JSON document of an exported file, when the file is there and parses.
pub open spec fn parsed(text: Option<&str>) -> Option<JsonModel> {
    match text {
        Some(t) => json_text_parse(t@),
        None => None,
    }
}

/// The file is there and does not parse.
pub open spec fn unparsable(text: Option<&str>) -> bool {
    text is Some && parsed(text) is None
}

pub open spec fn chat_turns_of(doc: Option<JsonModel>) -> Seq<TurnModel> {
    match doc {
        Some(m) => spec_chat_history(m),
        None => Seq::empty(),
    }
}

pub open spec fn logs_of(doc: Option<JsonModel>) -> Seq<LogModel> {
    match doc {
        Some(m) => spec_parse_logs(m),
        None => Seq::empty(),
    }
}

pub open spec fn spans_of(doc: Option<JsonModel>) -> Seq<SpanModel> {
    match doc {
        Some(m) => spec_parse_traces(m),
        None => Seq::empty(),
    }
}

pub open spec fn llm_turns_of(doc: Option<JsonModel>) -> Seq<LlmTurnModel> {
    match doc {
        Some(m) => spec_llm_turns(m),
        None => Seq::empty(),
    }
}

pub open spec fn system_prompt_of(doc: Option<JsonModel>) -> Seq<char> {
    match doc {
        Some(m) => spec_system_prompt(m),
        None => Seq::empty(),
    }
}

/// The tool calls of a call: those of its spans and those named in its
/// logs, sorted by time with the records of one call merged.
pub open spec fn spec_call_tool_calls(spans: Seq<SpanModel>, logs: Seq<LogEntry>) -> Seq<CallModel> {
    let from_logs = spec_log_tool_calls(logs, regex_compiles(tool_source()), regex_compiles(function_source()));
    dedup_calls(sort_calls(
        spec_span_tool_calls(spans) + from_logs.map_values(|c: (Seq<char>, int)| (c.0, c.1, c.1)),
    ))
}

/// A copy of a log record.
fn copy_log(l: &LogEntry) -> (r: LogEntry)
    ensures
        log_model(r) == log_model(*l),
{
    LogEntry {
        timestamp_ns: l.timestamp_ns,
        severity: l.severity.clone(),
        message: l.message.clone(),
        logger_name: l.logger_name.clone(),
    }
}

/// The error and the warning records among the logs, in order.
fn split_by_severity(logs: &Vec<LogEntry>) -> (r: (Vec<LogEntry>, Vec<LogEntry>))
    ensures
        log_models(r.0@) == log_models(logs@).filter(|m: LogModel| is_error_severity(m.severity)),
        log_models(r.1@) == log_models(logs@).filter(|m: LogModel| is_warning_severity(m.severity)),
{
    let ghost lm = log_models(logs@);
    let mut errors: Vec<LogEntry> = Vec::new();
    let mut warnings: Vec<LogEntry> = Vec::new();
    let mut i: usize = 0;
    while i < logs.len()
        invariant
            0 <= i <= logs@.len(),
            lm == log_models(logs@),
            log_models(errors@) == lm.take(i as int).filter(|m: LogModel| is_error_severity(m.severity)),
            log_models(warnings@) == lm.take(i as int).filter(|m: LogModel| is_warning_severity(m.severity)),
        decreases logs@.len() - i,
    {
        let l = &logs[i];
        let ghost e0 = errors@;
        let ghost w0 = warnings@;
        proof {
            assert(lm.take(i + 1).drop_last() =~= lm.take(i as int));
            assert(lm.take(i + 1).last() == log_model(*l));
            reveal_with_fuel(Seq::filter, 1);
        }
        if is_error_log(l) {
            errors.push(copy_log(l));
            assert(log_models(errors@) =~= log_models(e0).push(log_model(*l)));
        }
        if is_warning_log(l) {
            warnings.push(copy_log(l));
            assert(log_models(warnings@) =~= log_models(w0).push(log_model(*l)));
        }
        i = i + 1;
    }
    assert(lm.take(i as int) =~= lm);
    (errors, warnings)
}

/// Read a call from the texts of its exported files (each absent when the
/// file is missing): its conversation, its logs with the errors and
/// warnings among them, its spans and language-model calls, the system
/// prompt, the session metadata, its tool calls and its agent turns. An
/// error names the first file, in that order, that does not parse, and
/// traces with more language-model calls than can be counted.
pub fn analyze_call(chat: Option<&str>, logs: Option<&str>, traces: Option<&str>) -> (r: Result<CallRecords, LoadError>)
    ensures
        r matches Err(LoadError::ChatHistory) <==> unparsable(chat),
        r matches Err(LoadError::Logs) <==> !unparsable(chat) && unparsable(logs),
        r matches Err(LoadError::Traces) <==> !unparsable(chat) && !unparsable(logs) && unparsable(traces),
        r matches Err(LoadError::TooManyLlmTurns) <==> (!unparsable(chat) && !unparsable(logs) && !unparsable(traces)
            && (parsed(traces) matches Some(m) && !llm_turns_fit(m))),
        r matches Ok(c) ==> {
            &&& c.turns@.map_values(|t: ConversationTurn| turn_model(t)) == chat_turns_of(parsed(chat))
            &&& log_models(c.logs@) == logs_of(parsed(logs))
            &&& log_models(c.errors@) == log_models(c.logs@).filter(|m: LogModel| is_error_severity(m.severity))
            &&& log_models(c.warnings@) == log_models(c.logs@).filter(|m: LogModel| is_warning_severity(m.severity))
            &&& span_models(c.spans@) == spans_of(parsed(traces))
            &&& turn_models(c.llm_turns@) == llm_turns_of(parsed(traces))
            &&& c.system_prompt@ == system_prompt_of(parsed(traces))
            &&& session_info_ok(c.session, span_models(c.spans@))
            &&& call_models(c.tool_calls@) == spec_call_tool_calls(span_models(c.spans@), c.logs@)
            &&& turn_parts_ok(c.turn_parts@, span_models(c.spans@))
        },
{
    let mut turns: Vec<ConversationTurn> = Vec::new();
    if let Some(text) = chat {
        match parse_json_text(text) {
            Some(data) => turns = parse_chat_history(&data),
            None => return Err(LoadError::ChatHistory),
        }
    }
    let mut log_entries: Vec<LogEntry> = Vec::new();
    if let Some(text) = logs {
        match parse_json_text(text) {
            Some(data) => log_entries = parse_logs(&data),
            None => return Err(LoadError::Logs),
        }
    }
    let (errors, warnings) = split_by_severity(&log_entries);
    let mut spans: Vec<Span> = Vec::new();
    let mut llm_turns: Vec<LlmTurn> = Vec::new();
    let mut system_prompt = String::new();
    if let Some(text) = traces {
        match parse_json_text(text) {
            Some(data) => {
                spans = parse_traces(&data);
                llm_turns = match parse_llm_turns_checked(&data) {
                    Some(t) => t,
                    None => return Err(LoadError::TooManyLlmTurns),
                };
                system_prompt = extract_system_prompt(&data);
            },
            None => return Err(LoadError::Traces),
        }
    }
    assert(turn_models(llm_turns@) == llm_turns_of(parsed(traces)));
    let session = session_info(&spans);
    let (tool_re, function_re) = tool_call_patterns();
    let span_calls = tool_calls_from_spans(&spans);
    let log_calls = tool_calls_from_logs(&tool_re, &function_re, &log_entries);
    let tool_calls = merge_tool_calls(&span_calls, &log_calls);
    proof {
        assert(span_call_models(span_calls@) =~= span_tool_call_views(span_calls@));
        assert(log_call_models(log_calls@) =~= tool_call_views(log_calls@).map_values(|c: (Seq<char>, int)| (c.0, c.1, c.1)));
    }
    let turn_parts = agent_turn_parts(&spans);
    Ok(CallRecords {
        turns,
        logs: log_entries,
        errors,
        warnings,
        spans,
        llm_turns,
        system_prompt,
        session,
        tool_calls,
        turn_parts,
    })
}

} // verus!

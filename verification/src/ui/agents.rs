//! Agent runs: which agent was active from when to when, as told by the
//! "Executing agent run for NAME" log messages, and the agent that made
//! each tool call.

use vstd::prelude::*;
use vstd::view::View as _;
use crate::data::LogEntry;
use crate::analysis::{SpanToolCall, is_tool_span};
use crate::data::Span;
use crate::json::{Json, as_str, entry_index, entry_models, lemma_entry_models, model};
use crate::parser::{SpanModel, span_model, span_models};
use crate::toolcalls::{CallModel, ToolCall, call_models, same_call, span_call_models};
use crate::strings::{
    chars_contains, chars_of, contains_seq, split_on, split_seq, str_eq, string_from_chars, trim, trim_chars,
};

verus! {

/// Agent run info with start/end times in nanoseconds.
pub struct AgentRun {
    pub name: String,
    pub start_ns: i64,
    pub end_ns: Option<i64>,
}

/// Mathematical form of an agent run.
pub struct RunModel {
    pub name: Seq<char>,
    pub start: int,
    pub end: Option<int>,
}

impl AgentRun {
    pub open spec fn model(self) -> RunModel {
        RunModel {
            name: self.name@,
            start: self.start_ns as int,
            end: match self.end_ns {
                Some(e) => Some(e as int),
                None => None,
            },
        }
    }
}

pub open spec fn run_models(v: Seq<AgentRun>) -> Seq<RunModel> {
    v.map_values(|r: AgentRun| r.model())
}

/// The agent a run message names: what follows its last "for ", trimmed.
pub open spec fn run_agent_name(msg: Seq<char>) -> Seq<char> {
    trim(split_on(msg, "for "@).last())
}

pub open spec fn has_open_run(runs: Seq<RunModel>, name: Seq<char>) -> bool {
    exists|j: int| 0 <= j < runs.len() && runs[j].name == name && runs[j].end is None
}

/// One log message read: a run message closes the last run when it is open
/// and of another agent, and opens a run of its agent unless one is open.
pub open spec fn run_step(runs: Seq<RunModel>, log: LogEntry) -> Seq<RunModel> {
    if !contains_seq(log.message@, "Executing agent run for"@) {
        runs
    } else {
        let name = run_agent_name(log.message@);
        let ts = log.timestamp_ns as int;
        let closed = if runs.len() > 0 && runs.last().end is None && runs.last().name != name {
            runs.update(
                runs.len() - 1,
                RunModel { name: runs.last().name, start: runs.last().start, end: Some(ts) },
            )
        } else {
            runs
        };
        if has_open_run(closed, name) {
            closed
        } else {
            closed.push(RunModel { name, start: ts, end: None })
        }
    }
}

pub open spec fn run_scan(logs: Seq<LogEntry>) -> Seq<RunModel>
    decreases logs.len(),
{
    if logs.len() == 0 {
        Seq::empty()
    } else {
        run_step(run_scan(logs.drop_last()), logs.last())
    }
}

/// The runs of the logs, those still open ending at the session's end.
pub open spec fn spec_agent_runs(logs: Seq<LogEntry>, session_end: int) -> Seq<RunModel> {
    run_scan(logs).map_values(
        |r: RunModel|
            RunModel {
                name: r.name,
                start: r.start,
                end: match r.end {
                    Some(e) => Some(e),
                    None => Some(session_end),
                },
            },
    )
}

fn copy_run(r: &AgentRun) -> (c: AgentRun)
    ensures
        c.model() == r.model(),
{
    AgentRun { name: r.name.clone(), start_ns: r.start_ns, end_ns: r.end_ns }
}

/// Extract agent runs with their time ranges.
pub fn extract_agent_runs(logs: &Vec<LogEntry>, session_end_ns: i64) -> (runs: Vec<AgentRun>)
    ensures
        run_models(runs@) == spec_agent_runs(logs@, session_end_ns as int),
{
    let mut runs: Vec<AgentRun> = Vec::new();
    let marker = chars_of("Executing agent run for");
    let sep = chars_of("for ");
    proof {
        reveal_strlit("for ");
    }
    let mut i: usize = 0;
    assert(logs@.take(0) =~= Seq::<LogEntry>::empty());
    assert(run_models(runs@) =~= Seq::<RunModel>::empty());
    while i < logs.len()
        invariant
            0 <= i <= logs.len(),
            marker@ == "Executing agent run for"@,
            sep@ == "for "@,
            sep@.len() > 0,
            run_models(runs@) == run_scan(logs@.take(i as int)),
        decreases logs.len() - i,
    {
        assert(logs@.take(i + 1).drop_last() =~= logs@.take(i as int));
        assert(logs@.take(i + 1).last() == logs@[i as int]);
        let log = &logs[i];
        let mv = chars_of(log.message.as_str());
        if chars_contains(&mv, &marker) {
            let ghost before = run_models(runs@);
            let pieces = split_seq(&mv, &sep);
            proof {
                assert(split_on(mv@, sep@).len() > 0) by {
                    reveal_with_fuel(split_on, 2);
                }
            }
            let last_piece = &pieces[pieces.len() - 1];
            assert(crate::strings::chars_views(pieces@)[pieces@.len() - 1] == last_piece@);
            let name = string_from_chars(trim_chars(last_piece).as_slice());
            let ts = log.timestamp_ns;
            let n = runs.len();
            if n > 0 && runs[n - 1].end_ns.is_none() && !str_eq(runs[n - 1].name.as_str(), name.as_str()) {
                let closed = AgentRun { name: runs[n - 1].name.clone(), start_ns: runs[n - 1].start_ns, end_ns: Some(ts) };
                runs.set(n - 1, closed);
                assert(run_models(runs@) =~= before.update(
                    n - 1,
                    RunModel { name: before.last().name, start: before.last().start, end: Some(ts as int) },
                ));
            }
            let ghost closed_m = run_models(runs@);
            let mut open = false;
            let mut j: usize = 0;
            while j < runs.len()
                invariant
                    0 <= j <= runs@.len(),
                    closed_m == run_models(runs@),
                    open <==> exists|q: int| 0 <= q < j && closed_m[q].name == name@ && closed_m[q].end is None,
                decreases runs@.len() - j,
            {
                assert(closed_m[j as int] == runs@[j as int].model());
                if runs[j].end_ns.is_none() && str_eq(runs[j].name.as_str(), name.as_str()) {
                    open = true;
                }
                j = j + 1;
            }
            if !open {
                runs.push(AgentRun { name, start_ns: ts, end_ns: None });
                assert(run_models(runs@) =~= closed_m.push(runs@.last().model()));
            }
        }
        i = i + 1;
    }
    assert(logs@.take(i as int) =~= logs@);
    let ghost scanned = run_models(runs@);
    let mut out: Vec<AgentRun> = Vec::new();
    let mut k: usize = 0;
    while k < runs.len()
        invariant
            0 <= k <= runs@.len(),
            scanned == run_models(runs@),
            run_models(out@) == spec_agent_runs(logs@, session_end_ns as int).take(k as int),
            scanned == run_scan(logs@),
            out@.len() == k,
        decreases runs@.len() - k,
    {
        let r = &runs[k];
        let end = match r.end_ns {
            Some(e) => e,
            None => session_end_ns,
        };
        let ghost before = run_models(out@);
        assert(scanned[k as int] == r.model());
        out.push(AgentRun { name: r.name.clone(), start_ns: r.start_ns, end_ns: Some(end) });
        proof {
            let target = spec_agent_runs(logs@, session_end_ns as int);
            assert(target.len() == scanned.len());
            assert(out@[k as int].model() == run_models(out@)[k as int]);
            assert(target[k as int] == run_models(out@)[k as int]);
            assert forall|q: int| 0 <= q < k implies run_models(out@)[q] == target.take(k + 1)[q] by {
                assert(run_models(out@)[q] == before[q]);
                assert(before[q] == target.take(k as int)[q]);
            }
            assert(run_models(out@) =~= target.take(k + 1));
        }
        k = k + 1;
    }
    assert(spec_agent_runs(logs@, session_end_ns as int).take(k as int) =~= spec_agent_runs(logs@, session_end_ns as int));
    out
}

/// Among the first `n` runs, the one active at time `t` (started by then and
/// not ended before) that started last; of several that started at the same
/// latest time, the last one.
pub open spec fn active_upto(runs: Seq<RunModel>, t: int, n: int) -> Option<int>
    decreases n,
{
    if n <= 0 || n > runs.len() {
        None
    } else {
        let best = active_upto(runs, t, n - 1);
        let r = runs[n - 1];
        if r.start <= t && (match r.end {
            Some(e) => t <= e,
            None => true,
        }) && (match best {
            Some(b) => r.start >= runs[b].start,
            None => true,
        }) {
            Some(n - 1)
        } else {
            best
        }
    }
}

/// The name of the agent active at time `t`, "unknown" when none was.
pub open spec fn agent_at(runs: Seq<RunModel>, t: int) -> Seq<char> {
    match active_upto(runs, t, runs.len() as int) {
        Some(i) => runs[i].name,
        None => "unknown"@,
    }
}

/// The name of the agent that was active at a time in nanoseconds.
pub fn agent_name_at(runs: &Vec<AgentRun>, t_ns: i64) -> (name: String)
    ensures
        name@ == agent_at(run_models(runs@), t_ns as int),
{
    let ghost rm = run_models(runs@);
    let mut best: Option<usize> = None;
    let mut i: usize = 0;
    while i < runs.len()
        invariant
            0 <= i <= runs@.len(),
            rm == run_models(runs@),
            rm.len() == runs@.len(),
            match best {
                Some(b) => active_upto(rm, t_ns as int, i as int) == Some(b as int) && b < i,
                None => active_upto(rm, t_ns as int, i as int) is None,
            },
        decreases runs@.len() - i,
    {
        let r = &runs[i];
        assert(rm[i as int] == r.model());
        let active = r.start_ns <= t_ns && match r.end_ns {
            Some(e) => t_ns <= e,
            None => true,
        };
        let later = match best {
            Some(b) => {
                assert(rm[b as int] == runs@[b as int].model());
                r.start_ns >= runs[b].start_ns
            },
            None => true,
        };
        if active && later {
            best = Some(i);
        }
        i = i + 1;
    }
    match best {
        Some(b) => {
            assert(rm[b as int] == runs@[b as int].model());
            runs[b].name.clone()
        },
        None => String::from_str("unknown"),
    }
}

/// A tool call with the agent that was active when it started.
pub struct ToolWithAgent {
    pub name: String,
    pub start_ns: i64,
    pub end_ns: i64,
    pub agent: String,
}

pub type ToolAgentModel = (Seq<char>, int, int, Seq<char>);

pub open spec fn tool_agent_models(v: Seq<ToolWithAgent>) -> Seq<ToolAgentModel> {
    v.map_values(|t: ToolWithAgent| (t.name@, t.start_ns as int, t.end_ns as int, t.agent@))
}

/// Some listed tool is a record of the call `c` (same name, less than half
/// a second apart).
pub open spec fn has_record_of(list: Seq<ToolAgentModel>, c: CallModel) -> bool {
    exists|i: int| 0 <= i < list.len() && same_call((list[i].0, list[i].1, list[i].2), c)
}

pub open spec fn with_agent(c: CallModel, runs: Seq<RunModel>) -> ToolAgentModel {
    (c.0, c.1, c.2, agent_at(runs, c.1))
}

/// The span tool calls added after `base`, each unless a listed tool is
/// already a record of it.
pub open spec fn add_span_tools(base: Seq<ToolAgentModel>, spans: Seq<CallModel>, runs: Seq<RunModel>) -> Seq<ToolAgentModel>
    decreases spans.len(),
{
    if spans.len() == 0 {
        base
    } else {
        let acc = add_span_tools(base, spans.drop_last(), runs);
        if has_record_of(acc, spans.last()) {
            acc
        } else {
            acc.push(with_agent(spans.last(), runs))
        }
    }
}

/// The name of a tool span in the tools view: its "lk.function_name"
/// attribute when that is a string (even an empty one), else the span's own
/// name.
pub open spec fn view_tool_name(s: SpanModel) -> Seq<char> {
    match entry_index(s.attrs, "lk.function_name"@, 0) {
        Some(i) => match as_str(s.attrs[i].1) {
            Some(n) => n,
            None => s.name,
        },
        None => s.name,
    }
}

/// The "function_call" and "tool_call" spans, in order, with their names in
/// the tools view and their time ranges.
pub open spec fn view_tool_spans(spans: Seq<SpanModel>) -> Seq<CallModel>
    decreases spans.len(),
{
    if spans.len() == 0 {
        Seq::empty()
    } else {
        let done = view_tool_spans(spans.drop_last());
        let s = spans.last();
        if is_tool_span(s) {
            done.push((view_tool_name(s), s.start, s.end))
        } else {
            done
        }
    }
}

fn attr_str<'a>(attrs: &'a Vec<(String, Json)>, key: &str) -> (r: Option<&'a str>)
    ensures
        match entry_index(entry_models(attrs@), key@, 0) {
            Some(i) => match r {
                Some(x) => as_str(entry_models(attrs@)[i].1) == Some(x@),
                None => as_str(entry_models(attrs@)[i].1) is None,
            },
            None => r is None,
        },
{
    proof {
        lemma_entry_models(attrs@);
    }
    let ghost es = entry_models(attrs@);
    let mut i: usize = 0;
    while i < attrs.len()
        invariant
            0 <= i <= attrs@.len(),
            es == entry_models(attrs@),
            es.len() == attrs@.len(),
            forall|j: int| 0 <= j < attrs@.len() ==> #[trigger] es[j] == (attrs@[j].0@, model(attrs@[j].1)),
            entry_index(es, key@, 0) == entry_index(es, key@, i as int),
        decreases attrs.len() - i,
    {
        assert(es[i as int] == (attrs@[i as int].0@, model(attrs@[i as int].1)));
        if str_eq(attrs[i].0.as_str(), key) {
            return match &attrs[i].1 {
                Json::Str(x) => Some(x.as_str()),
                _ => None,
            };
        }
        i = i + 1;
    }
    None
}

fn view_tool_calls(spans: &Vec<Span>) -> (calls: Vec<SpanToolCall>)
    ensures
        span_call_models(calls@) == view_tool_spans(span_models(spans@)),
{
    let ghost sm = span_models(spans@);
    let mut calls: Vec<SpanToolCall> = Vec::new();
    let mut i: usize = 0;
    assert(sm.take(0) =~= Seq::<SpanModel>::empty());
    assert(span_call_models(calls@) =~= Seq::<CallModel>::empty());
    while i < spans.len()
        invariant
            0 <= i <= spans@.len(),
            sm == span_models(spans@),
            span_call_models(calls@) == view_tool_spans(sm.take(i as int)),
        decreases spans@.len() - i,
    {
        assert(sm.take(i + 1).drop_last() =~= sm.take(i as int));
        assert(sm.take(i + 1).last() == span_model(spans@[i as int]));
        let s = &spans[i];
        if str_eq(s.name.as_str(), "function_call") || str_eq(s.name.as_str(), "tool_call") {
            let name = match attr_str(&s.attributes, "lk.function_name") {
                Some(n) => String::from_str(n),
                None => s.name.clone(),
            };
            let ghost before = calls@;
            calls.push(SpanToolCall { name, start_ns: s.start_time_ns, end_ns: s.end_time_ns });
            assert(span_call_models(calls@) =~= span_call_models(before).push(
                (calls@.last().name@, s.start_time_ns as int, s.end_time_ns as int),
            ));
        }
        i = i + 1;
    }
    assert(sm.take(i as int) =~= sm);
    calls
}

/// The tool calls with their agents: every call of the analysis, then the
/// tool spans that none of the listed tools records.
pub open spec fn spec_tools_with_agent(calls: Seq<CallModel>, spans: Seq<CallModel>, runs: Seq<RunModel>) -> Seq<ToolAgentModel> {
    add_span_tools(calls.map_values(|c: CallModel| with_agent(c, runs)), spans, runs)
}

fn is_record_of(t: &ToolWithAgent, name: &str, start_ns: i64) -> (r: bool)
    ensures
        r == same_call((t.name@, t.start_ns as int, t.end_ns as int), (name@, start_ns as int, 0)),
{
    let d: i128 = t.start_ns as i128 - start_ns as i128;
    -(crate::toolcalls::DUPLICATE_WINDOW_NS as i128) < d && d < crate::toolcalls::DUPLICATE_WINDOW_NS as i128 && str_eq(
        t.name.as_str(),
        name,
    )
}

/// The tool calls with the agent active at their start: those of the
/// analysis, then the tool spans not already listed.
pub fn extract_tools_with_agent(calls: &Vec<ToolCall>, spans: &Vec<Span>, runs: &Vec<AgentRun>) -> (tools: Vec<ToolWithAgent>)
    ensures
        tool_agent_models(tools@) == spec_tools_with_agent(call_models(calls@), view_tool_spans(span_models(spans@)), run_models(runs@)),
{
    let span_calls = view_tool_calls(spans);
    let ghost rm = run_models(runs@);
    let ghost cm = call_models(calls@);
    let ghost base = cm.map_values(|c: CallModel| with_agent(c, rm));
    let mut tools: Vec<ToolWithAgent> = Vec::new();
    let mut i: usize = 0;
    while i < calls.len()
        invariant
            0 <= i <= calls@.len(),
            rm == run_models(runs@),
            cm == call_models(calls@),
            base == cm.map_values(|c: CallModel| with_agent(c, rm)),
            tool_agent_models(tools@) == base.take(i as int),
        decreases calls@.len() - i,
    {
        let c = &calls[i];
        let agent = agent_name_at(runs, c.start_ns);
        let ghost before = tools@;
        tools.push(ToolWithAgent { name: c.name.clone(), start_ns: c.start_ns, end_ns: c.end_ns, agent });
        assert(cm[i as int] == (c.name@, c.start_ns as int, c.end_ns as int));
        assert(tool_agent_models(tools@) =~= tool_agent_models(before).push(base[i as int]));
        assert(base.take(i + 1) =~= base.take(i as int).push(base[i as int]));
        i = i + 1;
    }
    assert(base.take(i as int) =~= base);
    let ghost sv = span_call_models(span_calls@);
    assert(sv == view_tool_spans(span_models(spans@)));
    let mut j: usize = 0;
    assert(sv.take(0) =~= Seq::<CallModel>::empty());
    while j < span_calls.len()
        invariant
            0 <= j <= span_calls@.len(),
            rm == run_models(runs@),
            sv == span_call_models(span_calls@),
            tool_agent_models(tools@) == add_span_tools(base, sv.take(j as int), rm),
        decreases span_calls@.len() - j,
    {
        let s = &span_calls[j];
        assert(sv.take(j + 1).drop_last() =~= sv.take(j as int));
        assert(sv.take(j + 1).last() == sv[j as int]);
        assert(sv[j as int] == (s.name@, s.start_ns as int, s.end_ns as int));
        let ghost acc = tool_agent_models(tools@);
        let mut found = false;
        let mut k: usize = 0;
        while k < tools.len()
            invariant
                0 <= k <= tools@.len(),
                acc == tool_agent_models(tools@),
                found <==> exists|q: int| 0 <= q < k && same_call((acc[q].0, acc[q].1, acc[q].2), sv[j as int]),
                sv[j as int] == (s.name@, s.start_ns as int, s.end_ns as int),
            decreases tools@.len() - k,
        {
            let t = &tools[k];
            assert(acc[k as int] == (t.name@, t.start_ns as int, t.end_ns as int, t.agent@));
            if is_record_of(t, s.name.as_str(), s.start_ns) {
                found = true;
            }
            k = k + 1;
        }
        if !found {
            let agent = agent_name_at(runs, s.start_ns);
            tools.push(ToolWithAgent { name: s.name.clone(), start_ns: s.start_ns, end_ns: s.end_ns, agent });
            assert(tool_agent_models(tools@) =~= acc.push(with_agent(sv[j as int], rm)));
        }
        j = j + 1;
    }
    assert(sv.take(j as int) =~= sv);
    tools
}

} // verus!

//! Records parsed from the observability exports (log records, spans and
//! conversation items), the diagnosis categories and the counts that decide
//! the verdict.

use vstd::prelude::*;
use crate::strings::{chars_contains, chars_of, contains_seq, lowercase, str_eq, to_lowercase};
use crate::json::Json;

verus! {

/// A single log record from the exported logs.
#[derive(Debug, Clone)]
pub struct LogEntry {
    pub timestamp_ns: i64,
    pub severity: String,
    pub message: String,
    pub logger_name: String,
}

/// A span of the exported traces: identity, parent, name, its time range
/// in nanoseconds and its attributes (distinct keys).
#[derive(Debug)]
pub struct Span {
    pub span_id: String,
    pub parent_span_id: Option<String>,
    pub name: String,
    pub start_time_ns: i64,
    pub end_time_ns: i64,
    pub attributes: Vec<(String, Json)>,
}

/// An item of the conversation history: a message, a function call or its
/// output, an agent handoff. Its creation time and metrics are kept as the
/// JSON values they were given as (they are fractional seconds).
#[derive(Debug)]
pub struct ConversationTurn {
    pub id: String,
    pub turn_type: String,
    pub role: Option<String>,
    pub content: Vec<String>,
    pub interrupted: bool,
    pub created_at: Option<Json>,
    pub metrics: Option<Json>,
    pub extra: Vec<(String, Json)>,
}

/// The words joined with single spaces.
pub open spec fn join_spaced(ts: Seq<Seq<char>>) -> Seq<char>
    decreases ts.len(),
{
    if ts.len() == 0 {
        Seq::empty()
    } else if ts.len() == 1 {
        ts[0]
    } else {
        join_spaced(ts.drop_last()) + " "@ + ts.last()
    }
}

impl ConversationTurn {
    /// The content pieces joined with single spaces.
    pub fn text(&self) -> (r: String)
        ensures
            r@ == join_spaced(self.content@.map_values(|c: String| c@)),
    {
        let ghost cs = self.content@.map_values(|c: String| c@);
        let mut out = String::new();
        let mut i: usize = 0;
        assert(cs.take(0) =~= Seq::<Seq<char>>::empty());
        while i < self.content.len()
            invariant
                0 <= i <= self.content@.len(),
                cs == self.content@.map_values(|c: String| c@),
                out@ == join_spaced(cs.take(i as int)),
            decreases self.content@.len() - i,
        {
            assert(cs.take(i + 1).drop_last() =~= cs.take(i as int));
            assert(cs.take(i + 1).last() == self.content@[i as int]@);
            if i > 0 {
                out.append(" ");
            } else {
                assert(cs.take(1) =~= seq![cs[0]]);
            }
            out.append(self.content[i].as_str());
            i = i + 1;
        }
        assert(cs.take(i as int) =~= cs);
        out
    }
}

/// Overall verdict of a call diagnosis.
#[derive(Debug, Clone, Copy, PartialEq, Eq, Structural)]
pub enum DiagnosisVerdict {
    Healthy,
    NeedsAttention,
    Problematic,
}

/// Severity level of a pipeline metric.
#[derive(Debug, Clone, Copy, PartialEq, Eq, Structural)]
pub enum Severity {
    Good,
    Warning,
    Critical,
}

/// Severities that count as errors.
pub open spec fn is_error_severity(s: Seq<char>) -> bool {
    s == "ERROR"@ || s == "CRITICAL"@
}

/// Severities that count as warnings.
pub open spec fn is_warning_severity(s: Seq<char>) -> bool {
    s == "WARN"@ || s == "WARNING"@
}

/// Whether a log severity marks an error (`ERROR` or `CRITICAL`).
pub fn is_error_log(log: &LogEntry) -> (res: bool)
    ensures
        res == is_error_severity(log.severity@),
{
    str_eq(log.severity.as_str(), "ERROR") || str_eq(log.severity.as_str(), "CRITICAL")
}

/// Whether a log severity marks a warning (`WARN` or `WARNING`).
pub fn is_warning_log(log: &LogEntry) -> (res: bool)
    ensures
        res == is_warning_severity(log.severity@),
{
    str_eq(log.severity.as_str(), "WARN") || str_eq(log.severity.as_str(), "WARNING")
}

/// The verdict of a diagnosis from the number of slow turns, the number of
/// error logs and the number of speech-synthesis retries: healthy when all
/// three are zero, problematic when there are more than five slow turns or
/// any error, and needing attention otherwise.
pub fn diagnosis_verdict(total_slow: usize, error_count: usize, tts_retries: usize) -> (v: DiagnosisVerdict)
    ensures
        v == spec_diagnosis_verdict(total_slow as int, error_count as int, tts_retries as int),
{
    if total_slow == 0 && error_count == 0 && tts_retries == 0 {
        DiagnosisVerdict::Healthy
    } else if total_slow > 5 || error_count != 0 {
        DiagnosisVerdict::Problematic
    } else {
        DiagnosisVerdict::NeedsAttention
    }
}

pub open spec fn spec_diagnosis_verdict(total_slow: int, error_count: int, tts_retries: int) -> DiagnosisVerdict {
    if total_slow == 0 && error_count == 0 && tts_retries == 0 {
        DiagnosisVerdict::Healthy
    } else if total_slow > 5 || error_count != 0 {
        DiagnosisVerdict::Problematic
    } else {
        DiagnosisVerdict::NeedsAttention
    }
}

/// The verdict is healthy exactly when there is no slow turn, no error and
/// no speech-synthesis retry; it is problematic exactly when there are more
/// than five slow turns or any error; every other call needs attention.
pub proof fn lemma_verdict_meaning(total_slow: int, error_count: int, tts_retries: int)
    requires
        total_slow >= 0,
        error_count >= 0,
        tts_retries >= 0,
    ensures
        (spec_diagnosis_verdict(total_slow, error_count, tts_retries) == DiagnosisVerdict::Healthy) <==> (total_slow
            == 0 && error_count == 0 && tts_retries == 0),
        (spec_diagnosis_verdict(total_slow, error_count, tts_retries) == DiagnosisVerdict::Problematic) <==> (
        total_slow > 5 || error_count > 0),
        (spec_diagnosis_verdict(total_slow, error_count, tts_retries) == DiagnosisVerdict::NeedsAttention) <==> (
        1 <= total_slow + tts_retries && total_slow <= 5 && error_count == 0),
{
}

/// A warning that reports a failed speech synthesis (the synthesis is then
/// retried).
pub open spec fn is_tts_retry(l: LogEntry) -> bool {
    contains_seq(lowercase(l.message@), "failed to synthesize speech"@)
}

/// An error that concerns a tool: its message mentions "tool" in any case,
/// or the booking system ("PROBOOK").
pub open spec fn is_tool_error(l: LogEntry) -> bool {
    contains_seq(lowercase(l.message@), "tool"@) || contains_seq(l.message@, "PROBOOK"@)
}

pub open spec fn count_matching(ls: Seq<LogEntry>, tool: bool) -> nat
    decreases ls.len(),
{
    if ls.len() == 0 {
        0
    } else {
        count_matching(ls.drop_last(), tool) + if (if tool { is_tool_error(ls.last()) } else { is_tts_retry(ls.last()) }) {
            1nat
        } else {
            0nat
        }
    }
}

proof fn lemma_count_matching_bound(ls: Seq<LogEntry>, tool: bool)
    ensures
        count_matching(ls, tool) <= ls.len(),
    decreases ls.len(),
{
    if ls.len() > 0 {
        lemma_count_matching_bound(ls.drop_last(), tool);
    }
}

fn count_logs(logs: &Vec<LogEntry>, tool: bool) -> (n: usize)
    ensures
        n == count_matching(logs@, tool),
{
    let mut n: usize = 0;
    let mut i: usize = 0;
    while i < logs.len()
        invariant
            0 <= i <= logs.len(),
            n == count_matching(logs@.take(i as int), tool),
        decreases logs.len() - i,
    {
        assert(logs@.take(i + 1).drop_last() =~= logs@.take(i as int));
        assert(logs@.take(i + 1).last() == logs@[i as int]);
        proof {
            lemma_count_matching_bound(logs@.take(i as int), tool);
        }
        let low = chars_of(to_lowercase(logs[i].message.as_str()).as_str());
        let hit = if tool {
            chars_contains(&low, &chars_of("tool")) || chars_contains(&chars_of(logs[i].message.as_str()), &chars_of("PROBOOK"))
        } else {
            chars_contains(&low, &chars_of("failed to synthesize speech"))
        };
        if hit {
            n = n + 1;
        }
        i = i + 1;
    }
    assert(logs@.take(i as int) =~= logs@);
    n
}

/// Number of speech-synthesis retries among the warnings.
pub fn count_tts_retries(warnings: &Vec<LogEntry>) -> (n: usize)
    ensures
        n == count_matching(warnings@, false),
{
    count_logs(warnings, false)
}

/// Number of tool errors among the errors.
pub fn count_tool_errors(errors: &Vec<LogEntry>) -> (n: usize)
    ensures
        n == count_matching(errors@, true),
{
    count_logs(errors, true)
}

} // verus!

//! Pieces of the text and JSON reports that involve no timing values:
//! terminal colours, the summary counts and the diagnosis record.

use vstd::prelude::*;
use vstd::view::View as _;
use crate::data::{DiagnosisVerdict, Severity};
use crate::strings::{concat_str, str_eq};

verus! {

/// Escape sequence that ends a colour.
pub open spec fn ansi_reset() -> Seq<char> {
    "\x1b[0m"@
}

/// `color`, `text` and the reset sequence when colours are on; `text` alone
/// otherwise.
pub open spec fn spec_colorize(text: Seq<char>, color: Seq<char>, use_color: bool) -> Seq<char> {
    if use_color {
        color + text + ansi_reset()
    } else {
        text
    }
}

/// Colorize text if colors are enabled.
pub fn colorize(text: &str, color: &str, use_color: bool) -> (res: String)
    ensures
        res@ == spec_colorize(text@, color@, use_color),
{
    if use_color {
        let a = concat_str(color, text);
        concat_str(a.as_str(), "\x1b[0m")
    } else {
        String::from_str(text)
    }
}

/// The concatenation of a sequence of texts.
pub open spec fn concat_all(parts: Seq<Seq<char>>) -> Seq<char>
    decreases parts.len(),
{
    if parts.len() == 0 {
        Seq::empty()
    } else {
        concat_all(parts.drop_last()) + parts.last()
    }
}

pub open spec fn str_views(v: Seq<&str>) -> Seq<Seq<char>> {
    v.map_values(|s: &str| s@)
}

/// Combine multiple color codes.
pub fn colors(codes: &[&str]) -> (res: String)
    ensures
        res@ == concat_all(str_views(codes@)),
{
    let mut res = String::new();
    let mut i: usize = 0;
    while i < codes.len()
        invariant
            0 <= i <= codes.len(),
            res@ == concat_all(str_views(codes@).take(i as int)),
        decreases codes.len() - i,
    {
        assert(str_views(codes@).take(i + 1).drop_last() =~= str_views(codes@).take(i as int));
        res.append(codes[i]);
        i = i + 1;
    }
    assert(str_views(codes@).take(i as int) =~= str_views(codes@));
    res
}

/// The colour of a severity: green, yellow or red.
pub open spec fn spec_severity_color(s: Severity) -> Seq<char> {
    match s {
        Severity::Good => "\x1b[92m"@,
        Severity::Warning => "\x1b[93m"@,
        Severity::Critical => "\x1b[91m"@,
    }
}

/// Convert Severity to ANSI color code.
pub fn severity_to_ansi(severity: Severity) -> (c: &'static str)
    ensures
        c@ == spec_severity_color(severity),
{
    match severity {
        Severity::Good => "\x1b[92m",
        Severity::Warning => "\x1b[93m",
        Severity::Critical => "\x1b[91m",
    }
}

/// What the summary counts need of a conversation turn: its role and
/// whether it was interrupted.
pub struct TurnTag {
    pub role: Option<String>,
    pub interrupted: bool,
}

pub open spec fn has_role(t: TurnTag, role: Seq<char>) -> bool {
    match t.role {
        Some(r) => r@ == role,
        None => false,
    }
}

/// Number of turns with the given role.
pub open spec fn count_role(ts: Seq<TurnTag>, role: Seq<char>) -> nat
    decreases ts.len(),
{
    if ts.len() == 0 {
        0
    } else {
        count_role(ts.drop_last(), role) + if has_role(ts.last(), role) { 1nat } else { 0nat }
    }
}

/// Number of interrupted turns.
pub open spec fn count_interrupted(ts: Seq<TurnTag>) -> nat
    decreases ts.len(),
{
    if ts.len() == 0 {
        0
    } else {
        count_interrupted(ts.drop_last()) + if ts.last().interrupted { 1nat } else { 0nat }
    }
}

/// JSON report structure for summary.
pub struct JsonSummary {
    pub total_turns: usize,
    pub user_turns: usize,
    pub assistant_turns: usize,
    pub interrupted_turns: usize,
    pub errors: usize,
    pub warnings: usize,
    pub tool_calls: usize,
}

/// The summary of a call: its turns, those of the user, those of the
/// assistant and the interrupted ones, with the numbers of errors, warnings
/// and tool calls.
pub fn json_summary(turns: &Vec<TurnTag>, errors: usize, warnings: usize, tool_calls: usize) -> (s: JsonSummary)
    ensures
        s.total_turns == turns@.len(),
        s.user_turns == count_role(turns@, "user"@),
        s.assistant_turns == count_role(turns@, "assistant"@),
        s.interrupted_turns == count_interrupted(turns@),
        s.errors == errors,
        s.warnings == warnings,
        s.tool_calls == tool_calls,
{
    let mut user: usize = 0;
    let mut assistant: usize = 0;
    let mut interrupted: usize = 0;
    let mut i: usize = 0;
    while i < turns.len()
        invariant
            0 <= i <= turns.len(),
            user == count_role(turns@.take(i as int), "user"@),
            assistant == count_role(turns@.take(i as int), "assistant"@),
            interrupted == count_interrupted(turns@.take(i as int)),
            user <= i,
            assistant <= i,
            interrupted <= i,
        decreases turns.len() - i,
    {
        assert(turns@.take(i + 1).drop_last() =~= turns@.take(i as int));
        let t = &turns[i];
        match &t.role {
            Some(r) => {
                if str_eq(r.as_str(), "user") {
                    user = user + 1;
                }
                if str_eq(r.as_str(), "assistant") {
                    assistant = assistant + 1;
                }
            },
            None => {},
        }
        if t.interrupted {
            interrupted = interrupted + 1;
        }
        i = i + 1;
    }
    assert(turns@.take(i as int) =~= turns@);
    JsonSummary {
        total_turns: turns.len(),
        user_turns: user,
        assistant_turns: assistant,
        interrupted_turns: interrupted,
        errors,
        warnings,
        tool_calls,
    }
}

/// The name of a verdict in the JSON report.
pub open spec fn spec_verdict_name(v: DiagnosisVerdict) -> Seq<char> {
    match v {
        DiagnosisVerdict::Healthy => "healthy"@,
        DiagnosisVerdict::NeedsAttention => "needs_attention"@,
        DiagnosisVerdict::Problematic => "problematic"@,
    }
}

/// The name of a verdict in the JSON report.
pub fn verdict_name(v: DiagnosisVerdict) -> (s: String)
    ensures
        s@ == spec_verdict_name(v),
{
    match v {
        DiagnosisVerdict::Healthy => String::from_str("healthy"),
        DiagnosisVerdict::NeedsAttention => String::from_str("needs_attention"),
        DiagnosisVerdict::Problematic => String::from_str("problematic"),
    }
}

/// Sum of a sequence of counts.
pub open spec fn sum_counts(v: Seq<usize>) -> nat
    decreases v.len(),
{
    if v.len() == 0 {
        0
    } else {
        sum_counts(v.drop_last()) + v.last() as nat
    }
}

/// JSON report structure for diagnosis.
pub struct JsonDiagnosis {
    pub verdict: String,
    pub primary_issue: Option<String>,
    pub primary_issue_detail: Option<String>,
    pub slow_turns_count: usize,
    pub tts_retries: usize,
    pub tool_errors: usize,
}

pub open spec fn opt_view(o: Option<String>) -> Option<Seq<char>> {
    match o {
        Some(s) => Some(s@),
        None => None,
    }
}

/// The diagnosis record of the JSON report: the verdict's name, the primary
/// issue, the number of slow turns over all causes, the speech-synthesis
/// retries and the tool errors.
pub fn json_diagnosis(
    verdict: DiagnosisVerdict,
    primary_issue: Option<String>,
    primary_issue_detail: Option<String>,
    slow_turn_counts: &Vec<usize>,
    tts_retries: usize,
    tool_errors: usize,
) -> (d: JsonDiagnosis)
    requires
        sum_counts(slow_turn_counts@) <= usize::MAX,
    ensures
        d.verdict@ == spec_verdict_name(verdict),
        opt_view(d.primary_issue) == opt_view(primary_issue),
        opt_view(d.primary_issue_detail) == opt_view(primary_issue_detail),
        d.slow_turns_count == sum_counts(slow_turn_counts@),
        d.tts_retries == tts_retries,
        d.tool_errors == tool_errors,
{
    let mut total: usize = 0;
    let mut i: usize = 0;
    while i < slow_turn_counts.len()
        invariant
            0 <= i <= slow_turn_counts.len(),
            total == sum_counts(slow_turn_counts@.take(i as int)),
            sum_counts(slow_turn_counts@) <= usize::MAX,
        decreases slow_turn_counts.len() - i,
    {
        assert(slow_turn_counts@.take(i + 1).drop_last() =~= slow_turn_counts@.take(i as int));
        proof {
            lemma_sum_counts_prefix(slow_turn_counts@, i + 1);
        }
        total = total + slow_turn_counts[i];
        i = i + 1;
    }
    assert(slow_turn_counts@.take(i as int) =~= slow_turn_counts@);
    JsonDiagnosis {
        verdict: verdict_name(verdict),
        primary_issue,
        primary_issue_detail,
        slow_turns_count: total,
        tts_retries,
        tool_errors,
    }
}

/// A prefix of the counts sums to no more than all of them.
pub proof fn lemma_sum_counts_prefix(v: Seq<usize>, i: int)
    requires
        0 <= i <= v.len(),
    ensures
        sum_counts(v.take(i)) <= sum_counts(v),
    decreases v.len(),
{
    if i < v.len() {
        lemma_sum_counts_prefix(v.drop_last(), i);
        assert(v.drop_last().take(i) =~= v.take(i));
    } else {
        assert(v.take(i) =~= v);
    }
}

/// No turn is both the user's and the assistant's: together they are at
/// most all the turns.
pub proof fn lemma_role_counts(ts: Seq<TurnTag>)
    ensures
        count_role(ts, "user"@) + count_role(ts, "assistant"@) <= ts.len(),
        count_interrupted(ts) <= ts.len(),
    decreases ts.len(),
{
    if ts.len() > 0 {
        lemma_role_counts(ts.drop_last());
        reveal_strlit("user");
        reveal_strlit("assistant");
        if has_role(ts.last(), "user"@) {
            assert("user"@[0] != "assistant"@[0]);
            assert(!has_role(ts.last(), "assistant"@));
        }
    }
}

} // verus!

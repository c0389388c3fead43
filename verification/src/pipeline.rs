//! The spans that frame one user-to-agent cycle: the user turn that an
//! agent turn answers, and the tool calls made during the agent turn.

use vstd::prelude::*;
use vstd::view::View as _;
use crate::data::Span;
use crate::parser::{SpanModel, span_model, span_models};
use crate::strings::str_eq;
use crate::toolcalls::{CallModel, ToolCall, call_models};

verus! {

/// Half a second: a user turn may end this long after the agent turn starts.
pub const USER_TURN_OVERLAP_NS: i64 = 500_000_000;

/// Ten seconds: a user turn that ended longer before the agent turn started
/// is not the one it answers.
pub const USER_TURN_MAX_GAP_NS: i64 = 10_000_000_000;

/// A "user_turn" span that can precede an agent turn starting at
/// `agent_start`: it ends at most half a second after that start and less
/// than ten seconds before it.
pub open spec fn fits_agent_turn(s: SpanModel, agent_start: int) -> bool {
    &&& s.name == "user_turn"@
    &&& s.end <= agent_start + USER_TURN_OVERLAP_NS
    &&& agent_start - s.end < USER_TURN_MAX_GAP_NS
}

/// Among the first `n` spans, the fitting user turn that ends last; of
/// several that end at the same latest time, the last one.
pub open spec fn preceding_upto(spans: Seq<SpanModel>, agent_start: int, n: int) -> Option<int>
    decreases n,
{
    if n <= 0 || n > spans.len() {
        None
    } else {
        let best = preceding_upto(spans, agent_start, n - 1);
        if fits_agent_turn(spans[n - 1], agent_start) && (match best {
            Some(b) => spans[n - 1].end >= spans[b].end,
            None => true,
        }) {
            Some(n - 1)
        } else {
            best
        }
    }
}

pub open spec fn opt_pos(o: Option<usize>) -> Option<int> {
    match o {
        Some(i) => Some(i as int),
        None => None,
    }
}

/// The user turn that an agent turn starting at `agent_start_ns` answers:
/// the fitting "user_turn" span that ends last.
pub fn preceding_user_turn(spans: &Vec<Span>, agent_start_ns: i64) -> (r: Option<usize>)
    ensures
        opt_pos(r) == preceding_upto(span_models(spans@), agent_start_ns as int, spans@.len() as int),
{
    let ghost sm = span_models(spans@);
    let mut best: Option<usize> = None;
    let mut i: usize = 0;
    while i < spans.len()
        invariant
            0 <= i <= spans@.len(),
            sm == span_models(spans@),
            sm.len() == spans@.len(),
            opt_pos(best) == preceding_upto(sm, agent_start_ns as int, i as int),
            best matches Some(b) ==> b < i,
        decreases spans@.len() - i,
    {
        let s = &spans[i];
        assert(sm[i as int] == span_model(spans@[i as int]));
        let end: i128 = s.end_time_ns as i128;
        let start: i128 = agent_start_ns as i128;
        let fits = str_eq(s.name.as_str(), "user_turn") && end <= start + USER_TURN_OVERLAP_NS as i128 && start - end
            < USER_TURN_MAX_GAP_NS as i128;
        let later = match best {
            Some(b) => {
                assert(sm[b as int] == span_model(spans@[b as int]));
                s.end_time_ns >= spans[b].end_time_ns
            },
            None => true,
        };
        if fits && later {
            best = Some(i);
        }
        i = i + 1;
    }
    best
}

/// Names of the tool calls that start within `[start, end]`, in order.
pub open spec fn calls_during(calls: Seq<CallModel>, start: int, end: int) -> Seq<Seq<char>>
    decreases calls.len(),
{
    if calls.len() == 0 {
        Seq::empty()
    } else {
        let done = calls_during(calls.drop_last(), start, end);
        let c = calls.last();
        if start <= c.1 <= end {
            done.push(c.0)
        } else {
            done
        }
    }
}

/// The names of the tool calls made during a span's time range.
pub fn tool_calls_during(calls: &Vec<ToolCall>, start_ns: i64, end_ns: i64) -> (names: Vec<String>)
    ensures
        crate::strings::strings_views(names@) == calls_during(call_models(calls@), start_ns as int, end_ns as int),
{
    let ghost cm = call_models(calls@);
    let mut names: Vec<String> = Vec::new();
    let mut i: usize = 0;
    assert(cm.take(0) =~= Seq::<CallModel>::empty());
    assert(crate::strings::strings_views(names@) =~= Seq::<Seq<char>>::empty());
    while i < calls.len()
        invariant
            0 <= i <= calls@.len(),
            cm == call_models(calls@),
            crate::strings::strings_views(names@) == calls_during(cm.take(i as int), start_ns as int, end_ns as int),
        decreases calls@.len() - i,
    {
        assert(cm.take(i + 1).drop_last() =~= cm.take(i as int));
        assert(cm.take(i + 1).last() == cm[i as int]);
        let c = &calls[i];
        if start_ns <= c.start_ns && c.start_ns <= end_ns {
            let ghost before = names@;
            names.push(c.name.clone());
            assert(crate::strings::strings_views(names@) =~= crate::strings::strings_views(before).push(c.name@));
        }
        i = i + 1;
    }
    assert(cm.take(i as int) =~= cm);
    names
}

/// The names of the calls during a range are the names of exactly the calls
/// that start within it, one per call, in the calls' order.
pub proof fn lemma_calls_during(calls: Seq<CallModel>, start: int, end: int)
    ensures
        calls_during(calls, start, end) == calls.filter(|c: CallModel| start <= c.1 <= end).map_values(
            |c: CallModel| c.0,
        ),
        calls_during(calls, start, end).len() == calls.filter(|c: CallModel| start <= c.1 <= end).len(),
    decreases calls.len(),
{
    reveal_with_fuel(Seq::filter, 1);
    if calls.len() > 0 {
        lemma_calls_during(calls.drop_last(), start, end);
        let f = calls.drop_last().filter(|c: CallModel| start <= c.1 <= end);
        let c = calls.last();
        if start <= c.1 <= end {
            assert(f.push(c).map_values(|c: CallModel| c.0) =~= f.map_values(|c: CallModel| c.0).push(c.0));
        }
    }
    assert(calls_during(calls, start, end) =~= calls.filter(|c: CallModel| start <= c.1 <= end).map_values(
        |c: CallModel| c.0,
    ));
}

/// Calls over two lists in turn are the calls of each list, in turn.
pub proof fn lemma_calls_during_append(a: Seq<CallModel>, b: Seq<CallModel>, start: int, end: int)
    ensures
        calls_during(a + b, start, end) == calls_during(a, start, end) + calls_during(b, start, end),
    decreases b.len(),
{
    if b.len() == 0 {
        assert(a + b =~= a);
        assert(calls_during(a, start, end) + calls_during(b, start, end) =~= calls_during(a, start, end));
    } else {
        lemma_calls_during_append(a, b.drop_last(), start, end);
        assert((a + b).drop_last() =~= a + b.drop_last());
        assert((a + b).last() == b.last());
        if start <= b.last().1 <= end {
            assert(calls_during(a, start, end) + calls_during(b, start, end) =~= (calls_during(a, start, end)
                + calls_during(b.drop_last(), start, end)).push(b.last().0));
        } else {
            assert(calls_during(a, start, end) + calls_during(b, start, end) =~= calls_during(a, start, end)
                + calls_during(b.drop_last(), start, end));
        }
    }
}

/// The chosen user turn fits the agent turn and no fitting user turn ends
/// later; when none is chosen, none fits.
pub proof fn lemma_preceding_upto(spans: Seq<SpanModel>, agent_start: int, n: int)
    requires
        0 <= n <= spans.len(),
    ensures
        match preceding_upto(spans, agent_start, n) {
            Some(b) => 0 <= b < n && fits_agent_turn(spans[b], agent_start) && forall|j: int|
                0 <= j < n && fits_agent_turn(#[trigger] spans[j], agent_start) ==> spans[j].end <= spans[b].end,
            None => forall|j: int| 0 <= j < n ==> !fits_agent_turn(#[trigger] spans[j], agent_start),
        },
    decreases n,
{
    if n > 0 {
        lemma_preceding_upto(spans, agent_start, n - 1);
    }
}

} // verus!

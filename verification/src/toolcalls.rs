//! Which files of an observability folder the analysis reads, and the
//! merging of the tool calls found in spans and in logs into one list
//! ordered by time, without the duplicates that both sources record.

use vstd::prelude::*;
use vstd::view::View as _;
use crate::analysis::{LogToolCall, SpanToolCall};
use crate::cloud::ends_with;
use crate::strings::{chars_contains, chars_of, contains_seq, str_eq};

verus! {

/// A tool call of the analysis: its name and time range in nanoseconds (a
/// call named only in a log has an empty range at the log's time).
#[derive(Debug)]
pub struct ToolCall {
    pub name: String,
    pub start_ns: i64,
    pub end_ns: i64,
}

pub type CallModel = (Seq<char>, int, int);

pub open spec fn call_model(c: ToolCall) -> CallModel {
    (c.name@, c.start_ns as int, c.end_ns as int)
}

pub open spec fn call_models(v: Seq<ToolCall>) -> Seq<CallModel> {
    v.map_values(|c: ToolCall| call_model(c))
}

/// Half a second, the window within which two records of one call are taken
/// for the same call.
pub const DUPLICATE_WINDOW_NS: i64 = 500_000_000;

/// Two records are of the same call: the same name, and starts less than
/// half a second apart.
pub open spec fn same_call(a: CallModel, b: CallModel) -> bool {
    a.0 == b.0 && -DUPLICATE_WINDOW_NS < a.1 - b.1 < DUPLICATE_WINDOW_NS
}

/// Position at which a call starting at `t` goes in a list ordered by start:
/// after every call that starts no later.
pub open spec fn call_insert_pos(s: Seq<CallModel>, t: int) -> int
    decreases s.len(),
{
    if s.len() == 0 {
        0
    } else if s[0].1 <= t {
        1 + call_insert_pos(s.drop_first(), t)
    } else {
        0
    }
}

/// The calls ordered by start; calls with equal starts keep their order.
pub open spec fn sort_calls(s: Seq<CallModel>) -> Seq<CallModel>
    decreases s.len(),
{
    if s.len() == 0 {
        Seq::empty()
    } else {
        let sorted = sort_calls(s.drop_last());
        sorted.insert(call_insert_pos(sorted, s.last().1), s.last())
    }
}

/// The calls without those that repeat the call kept just before them
/// (each call is compared with the last one kept).
pub open spec fn dedup_calls(s: Seq<CallModel>) -> Seq<CallModel>
    decreases s.len(),
{
    if s.len() == 0 {
        Seq::empty()
    } else {
        let r = dedup_calls(s.drop_last());
        if r.len() > 0 && same_call(s.last(), r.last()) {
            r
        } else {
            r.push(s.last())
        }
    }
}

pub open spec fn span_call_models(v: Seq<SpanToolCall>) -> Seq<CallModel> {
    v.map_values(|t: SpanToolCall| (t.name@, t.start_ns as int, t.end_ns as int))
}

pub open spec fn log_call_models(v: Seq<LogToolCall>) -> Seq<CallModel> {
    v.map_values(|t: LogToolCall| (t.name@, t.timestamp_ns as int, t.timestamp_ns as int))
}

/// The tool calls of a call: those of the spans, then those of the logs,
/// ordered by start, without repeated records of one call.
pub open spec fn spec_merge_tool_calls(spans: Seq<SpanToolCall>, logs: Seq<LogToolCall>) -> Seq<CallModel> {
    dedup_calls(sort_calls(span_call_models(spans) + log_call_models(logs)))
}

fn sort_tool_calls(calls: Vec<ToolCall>) -> (sorted: Vec<ToolCall>)
    ensures
        call_models(sorted@) == sort_calls(call_models(calls@)),
{
    let ghost all = call_models(calls@);
    let mut rest = calls;
    let mut sorted: Vec<ToolCall> = Vec::new();
    let ghost mut k: int = 0;
    assert(all.take(0) =~= Seq::<CallModel>::empty());
    assert(call_models(sorted@) =~= Seq::<CallModel>::empty());
    assert(call_models(rest@) =~= all.skip(0));
    while rest.len() > 0
        invariant
            0 <= k <= all.len(),
            call_models(rest@) == all.skip(k),
            call_models(sorted@) == sort_calls(all.take(k)),
        decreases rest.len(),
    {
        let ghost rb = rest@;
        let e = rest.remove(0);
        let ghost sm = call_models(sorted@);
        proof {
            assert(call_models(rb) == all.skip(k));
            assert(all.skip(k).len() == all.len() - k);
            assert(call_models(rb)[0] == call_model(e));
            assert(all.skip(k)[0] == all[k]);
            assert forall|q: int| 0 <= q < rest@.len() implies call_models(rest@)[q] == all.skip(k + 1)[q] by {
                assert(rest@[q] == rb[q + 1]);
                assert(call_models(rb)[q + 1] == all.skip(k)[q + 1]);
            }
            assert(call_models(rest@) =~= all.skip(k + 1));
            assert(all.take(k + 1).drop_last() =~= all.take(k));
            assert(all.take(k + 1).last() == all[k]);
        }
        let t = e.start_ns;
        let mut p: usize = 0;
        assert(sm.skip(0) =~= sm);
        while p < sorted.len() && sorted[p].start_ns <= t
            invariant
                0 <= p <= sorted@.len(),
                sm == call_models(sorted@),
                call_insert_pos(sm, t as int) == p + call_insert_pos(sm.skip(p as int), t as int),
            decreases sorted@.len() - p,
        {
            assert(sm[p as int] == call_model(sorted@[p as int]));
            assert(sm.skip(p as int)[0] == sm[p as int]);
            assert(sm.skip(p as int).drop_first() =~= sm.skip(p + 1));
            p = p + 1;
        }
        proof {
            if p < sorted@.len() {
                assert(sm[p as int] == call_model(sorted@[p as int]));
                assert(sm.skip(p as int)[0] == sm[p as int]);
            }
            assert(call_insert_pos(sm.skip(p as int), t as int) == 0);
        }
        let ghost before = sorted@;
        sorted.insert(p, e);
        proof {
            assert(call_models(sorted@) =~= sm.insert(p as int, all[k])) by {
                assert forall|q: int| 0 <= q < sorted@.len() implies call_models(sorted@)[q] == sm.insert(p as int, all[k])[q] by {
                    if q < p {
                        assert(sorted@[q] == before[q]);
                    } else if q > p {
                        assert(sorted@[q] == before[q - 1]);
                    }
                }
            }
            k = k + 1;
        }
    }
    assert(all.skip(k).len() == 0);
    assert(all.take(k) =~= all);
    sorted
}

fn is_same_call(a: &ToolCall, b: &ToolCall) -> (r: bool)
    ensures
        r == same_call(call_model(*a), call_model(*b)),
{
    let d: i128 = a.start_ns as i128 - b.start_ns as i128;
    -(DUPLICATE_WINDOW_NS as i128) < d && d < DUPLICATE_WINDOW_NS as i128 && str_eq(a.name.as_str(), b.name.as_str())
}

fn dedup_tool_calls(calls: Vec<ToolCall>) -> (kept: Vec<ToolCall>)
    ensures
        call_models(kept@) == dedup_calls(call_models(calls@)),
{
    let ghost all = call_models(calls@);
    let mut rest = calls;
    let mut kept: Vec<ToolCall> = Vec::new();
    let ghost mut k: int = 0;
    assert(all.take(0) =~= Seq::<CallModel>::empty());
    assert(call_models(kept@) =~= Seq::<CallModel>::empty());
    assert(call_models(rest@) =~= all.skip(0));
    while rest.len() > 0
        invariant
            0 <= k <= all.len(),
            call_models(rest@) == all.skip(k),
            call_models(kept@) == dedup_calls(all.take(k)),
        decreases rest.len(),
    {
        let ghost rb = rest@;
        let e = rest.remove(0);
        proof {
            assert(call_models(rb) == all.skip(k));
            assert(all.skip(k).len() == all.len() - k);
            assert(call_models(rb)[0] == call_model(e));
            assert(all.skip(k)[0] == all[k]);
            assert forall|q: int| 0 <= q < rest@.len() implies call_models(rest@)[q] == all.skip(k + 1)[q] by {
                assert(rest@[q] == rb[q + 1]);
                assert(call_models(rb)[q + 1] == all.skip(k)[q + 1]);
            }
            assert(call_models(rest@) =~= all.skip(k + 1));
            assert(all.take(k + 1).drop_last() =~= all.take(k));
            assert(all.take(k + 1).last() == all[k]);
        }
        let n = kept.len();
        let dup = n > 0 && is_same_call(&e, &kept[n - 1]);
        proof {
            if n > 0 {
                assert(call_models(kept@).last() == call_model(kept@[n - 1]));
            }
        }
        if !dup {
            let ghost before = kept@;
            kept.push(e);
            assert(call_models(kept@) =~= call_models(before).push(all[k]));
        }
        proof {
            k = k + 1;
        }
    }
    assert(all.skip(k).len() == 0);
    assert(all.take(k) =~= all);
    kept
}

/// Merge the tool calls of the spans and of the logs: all of them ordered by
/// start (ties keep spans before logs and their own order), keeping of
/// records of one call (same name, less than half a second apart) only the
/// first.
pub fn merge_tool_calls(span_calls: &Vec<SpanToolCall>, log_calls: &Vec<LogToolCall>) -> (calls: Vec<ToolCall>)
    ensures
        call_models(calls@) == spec_merge_tool_calls(span_calls@, log_calls@),
{
    let mut all: Vec<ToolCall> = Vec::new();
    let mut i: usize = 0;
    while i < span_calls.len()
        invariant
            0 <= i <= span_calls@.len(),
            all@.len() == i,
            call_models(all@) == span_call_models(span_calls@).take(i as int),
        decreases span_calls@.len() - i,
    {
        let c = &span_calls[i];
        let ghost before = all@;
        all.push(ToolCall { name: c.name.clone(), start_ns: c.start_ns, end_ns: c.end_ns });
        assert(call_models(all@) =~= call_models(before).push(call_model(all@[i as int])));
        assert(span_call_models(span_calls@).take(i + 1) =~= span_call_models(span_calls@).take(i as int).push(
            span_call_models(span_calls@)[i as int],
        ));
        assert(call_models(all@) =~= span_call_models(span_calls@).take(i + 1));
        i = i + 1;
    }
    let ghost sv = span_call_models(span_calls@);
    let ghost lv = log_call_models(log_calls@);
    assert(sv.take(i as int) =~= sv);
    let mut j: usize = 0;
    assert(sv + lv.take(0) =~= sv);
    while j < log_calls.len()
        invariant
            0 <= j <= log_calls@.len(),
            sv == span_call_models(span_calls@),
            lv == log_call_models(log_calls@),
            call_models(all@) == sv + lv.take(j as int),
        decreases log_calls@.len() - j,
    {
        let c = &log_calls[j];
        let ghost before = all@;
        all.push(ToolCall { name: c.name.clone(), start_ns: c.timestamp_ns, end_ns: c.timestamp_ns });
        assert(call_models(all@) =~= call_models(before).push(call_model(all@[before.len() as int])));
        assert(sv + lv.take(j + 1) =~= (sv + lv.take(j as int)).push(lv[j as int]));
        assert(call_models(all@) =~= sv + lv.take(j + 1));
        j = j + 1;
    }
    assert(lv.take(j as int) =~= lv);
    let sorted = sort_tool_calls(all);
    dedup_tool_calls(sorted)
}

/// The calls are ordered by start.
pub open spec fn calls_sorted(s: Seq<CallModel>) -> bool {
    forall|i: int, j: int| 0 <= i < j < s.len() ==> s[i].1 <= s[j].1
}

proof fn lemma_call_insert_pos(s: Seq<CallModel>, t: int)
    requires
        calls_sorted(s),
    ensures
        0 <= call_insert_pos(s, t) <= s.len(),
        forall|i: int| 0 <= i < call_insert_pos(s, t) ==> s[i].1 <= t,
        forall|i: int| call_insert_pos(s, t) <= i < s.len() ==> s[i].1 > t,
    decreases s.len(),
{
    if s.len() > 0 {
        if s[0].1 <= t {
            let r = s.drop_first();
            assert(calls_sorted(r)) by {
                assert forall|i: int, j: int| 0 <= i < j < r.len() implies r[i].1 <= r[j].1 by {
                    assert(r[i] == s[i + 1] && r[j] == s[j + 1]);
                }
            }
            lemma_call_insert_pos(r, t);
            assert forall|i: int| 0 <= i < call_insert_pos(s, t) implies s[i].1 <= t by {
                if i > 0 {
                    assert(s[i] == r[i - 1]);
                }
            }
            assert forall|i: int| call_insert_pos(s, t) <= i < s.len() implies s[i].1 > t by {
                assert(s[i] == r[i - 1]);
            }
        } else {
            assert forall|i: int| 0 <= i < s.len() implies s[i].1 > t by {
                if i > 0 {
                    assert(s[0].1 <= s[i].1);
                }
            }
        }
    }
}

/// Sorting orders the calls by start and keeps the same calls.
pub proof fn lemma_sort_calls(s: Seq<CallModel>)
    ensures
        calls_sorted(sort_calls(s)),
        sort_calls(s).to_multiset() == s.to_multiset(),
    decreases s.len(),
{
    broadcast use vstd::seq_lib::to_multiset_insert, vstd::seq_lib::to_multiset_build;

    if s.len() == 0 {
        assert(sort_calls(s) =~= s);
    } else {
        let x = s.last();
        lemma_sort_calls(s.drop_last());
        let sorted = sort_calls(s.drop_last());
        let p = call_insert_pos(sorted, x.1);
        lemma_call_insert_pos(sorted, x.1);
        let r = sorted.insert(p, x);
        assert(r == sort_calls(s));
        assert forall|i: int, j: int| 0 <= i < j < r.len() implies r[i].1 <= r[j].1 by {
            if j < p {
                assert(r[i] == sorted[i] && r[j] == sorted[j]);
            } else if j == p {
                assert(r[i] == sorted[i]);
            } else if i < p {
                assert(r[i] == sorted[i] && r[j] == sorted[j - 1]);
            } else if i == p {
                assert(r[j] == sorted[j - 1]);
            } else {
                assert(r[i] == sorted[i - 1] && r[j] == sorted[j - 1]);
            }
        }
        assert(s =~= s.drop_last().push(x));
    }
}

/// Dropping repeated records keeps an order by start, keeps only calls
/// that were given, keeps the first call, leaves no two neighbours that are
/// records of one call, and drops a call only when a kept call is a record
/// of the same call.
pub proof fn lemma_dedup_calls(s: Seq<CallModel>)
    ensures
        forall|i: int|
            #![trigger s[i]]
            0 <= i < s.len() ==> exists|j: int|
                0 <= j < dedup_calls(s).len() && (dedup_calls(s)[j] == s[i] || same_call(s[i], #[trigger] dedup_calls(s)[j])),
        calls_sorted(s) ==> calls_sorted(dedup_calls(s)),
        forall|i: int| 0 <= i < dedup_calls(s).len() ==> s.contains(#[trigger] dedup_calls(s)[i]),
        s.len() > 0 ==> dedup_calls(s).len() > 0 && dedup_calls(s)[0] == s[0],
        forall|i: int|
            0 <= i < dedup_calls(s).len() - 1 ==> !same_call(
                #[trigger] dedup_calls(s)[i + 1],
                dedup_calls(s)[i],
            ),
    decreases s.len(),
{
    if s.len() > 0 {
        let p = s.drop_last();
        lemma_dedup_calls(p);
        let r = dedup_calls(p);
        let x = s.last();
        let d = dedup_calls(s);
        assert forall|i: int| #![trigger s[i]] 0 <= i < s.len() implies exists|j: int|
            0 <= j < d.len() && (d[j] == s[i] || same_call(s[i], #[trigger] d[j])) by {
            if i < s.len() - 1 {
                assert(s[i] == p[i]);
                assert(p[i] == s[i]);
                let j = choose|j: int| 0 <= j < r.len() && (r[j] == p[i] || same_call(p[i], #[trigger] r[j]));
                assert(d[j] == r[j]);
            } else if r.len() > 0 && same_call(x, r.last()) {
                assert(d[r.len() - 1] == r.last());
            } else {
                assert(d[r.len() as int] == x);
            }
        }
        assert forall|i: int| 0 <= i < r.len() implies s.contains(#[trigger] r[i]) by {
            assert(p.contains(r[i]));
            let j = choose|j: int| 0 <= j < p.len() && p[j] == r[i];
            assert(s[j] == r[i]);
        }
        assert(s[s.len() - 1] == x);
        if p.len() > 0 {
            assert(p[0] == s[0]);
        } else {
            assert(r.len() == 0);
        }
        if calls_sorted(s) {
            assert(calls_sorted(p)) by {
                assert forall|i: int, j: int| 0 <= i < j < p.len() implies p[i].1 <= p[j].1 by {
                    assert(p[i] == s[i] && p[j] == s[j]);
                }
            }
            if !(r.len() > 0 && same_call(x, r.last())) {
                let q = r.push(x);
                assert forall|i: int, j: int| 0 <= i < j < q.len() implies q[i].1 <= q[j].1 by {
                    if j == q.len() - 1 {
                        assert(q[i] == r[i]);
                        assert(p.contains(r[i]));
                        let k = choose|k: int| 0 <= k < p.len() && p[k] == r[i];
                        assert(s[k] == r[i]);
                    } else {
                        assert(q[i] == r[i] && q[j] == r[j]);
                    }
                }
            }
        }
    }
}

/// The merged tool calls are ordered by start, are all among the given
/// ones, no two neighbours are records of one call, and every given call is
/// kept or has a kept record of the same call.
pub proof fn lemma_merged_tool_calls(spans: Seq<SpanToolCall>, logs: Seq<LogToolCall>)
    ensures
        forall|i: int|
            #![trigger (span_call_models(spans) + log_call_models(logs))[i]]
            0 <= i < (span_call_models(spans) + log_call_models(logs)).len() ==> exists|j: int|
                0 <= j < spec_merge_tool_calls(spans, logs).len() && (spec_merge_tool_calls(spans, logs)[j] == (
                span_call_models(spans) + log_call_models(logs))[i] || same_call(
                    (span_call_models(spans) + log_call_models(logs))[i],
                    #[trigger] spec_merge_tool_calls(spans, logs)[j],
                )),
        calls_sorted(spec_merge_tool_calls(spans, logs)),
        forall|i: int|
            0 <= i < spec_merge_tool_calls(spans, logs).len() ==> (span_call_models(spans) + log_call_models(
                logs,
            )).contains(#[trigger] spec_merge_tool_calls(spans, logs)[i]),
        forall|i: int|
            0 <= i < spec_merge_tool_calls(spans, logs).len() - 1 ==> !same_call(
                #[trigger] spec_merge_tool_calls(spans, logs)[i + 1],
                spec_merge_tool_calls(spans, logs)[i],
            ),
{
    broadcast use vstd::seq_lib::to_multiset_contains;

    let all = span_call_models(spans) + log_call_models(logs);
    let sorted = sort_calls(all);
    lemma_sort_calls(all);
    lemma_dedup_calls(sorted);
    let r = dedup_calls(sorted);
    assert forall|i: int| 0 <= i < r.len() implies all.contains(#[trigger] r[i]) by {
        assert(sorted.contains(r[i]));
        assert(sorted.to_multiset().count(r[i]) > 0);
        assert(all.to_multiset().count(r[i]) > 0);
    }
    assert forall|i: int| #![trigger all[i]] 0 <= i < all.len() implies exists|j: int|
        0 <= j < r.len() && (r[j] == all[i] || same_call(all[i], #[trigger] r[j])) by {
        assert(all.contains(all[i]));
        assert(all.to_multiset().count(all[i]) > 0);
        assert(sorted.to_multiset().count(all[i]) > 0);
        assert(sorted.contains(all[i]));
        let k = choose|k: int| 0 <= k < sorted.len() && sorted[k] == all[i];
        assert(sorted[k] == all[i]);
    }
    assert(r == spec_merge_tool_calls(spans, logs));
}

/// A file name with the extension "json" (a name such as ".json" has no
/// extension).
pub open spec fn is_json_name(n: Seq<char>) -> bool {
    ends_with(n, ".json"@) && n.len() > 5
}

/// Position of the first JSON file at or after `i` whose name contains
/// `part`.
pub open spec fn first_json_with(names: Seq<Seq<char>>, part: Seq<char>, i: int) -> Option<int>
    decreases names.len() - i,
{
    if i < 0 || i >= names.len() {
        None
    } else if is_json_name(names[i]) && contains_seq(names[i], part) {
        Some(i)
    } else {
        first_json_with(names, part, i + 1)
    }
}

/// The files of a folder that the analysis reads, by their position in the
/// listing: the first JSON file naming the chat history, the logs, and the
/// traces.
#[derive(Debug, Clone, Copy, PartialEq, Eq, Structural)]
pub struct DataFiles {
    pub chat_history: Option<usize>,
    pub logs: Option<usize>,
    pub traces: Option<usize>,
}

pub open spec fn opt_index(o: Option<usize>) -> Option<int> {
    match o {
        Some(i) => Some(i as int),
        None => None,
    }
}

fn is_json_file(v: &Vec<char>) -> (r: bool)
    ensures
        r == is_json_name(v@),
{
    let x = chars_of(".json");
    if x.len() > v.len() || v.len() <= 5 {
        return false;
    }
    let tail = crate::strings::chars_range(v, v.len() - x.len(), v.len());
    assert(tail@ =~= v@.skip(v@.len() - x@.len()));
    crate::strings::chars_eq(&tail, &x)
}

fn first_json_index(names: &Vec<Vec<char>>, part: &str, Ghost(ns): Ghost<Seq<Seq<char>>>) -> (r: Option<usize>)
    requires
        ns.len() == names@.len(),
        forall|j: int| 0 <= j < ns.len() ==> #[trigger] ns[j] == names@[j]@,
    ensures
        opt_index(r) == first_json_with(ns, part@, 0),
{
    let p = chars_of(part);
    let mut i: usize = 0;
    while i < names.len()
        invariant
            0 <= i <= names@.len(),
            ns.len() == names@.len(),
            forall|j: int| 0 <= j < ns.len() ==> #[trigger] ns[j] == names@[j]@,
            p@ == part@,
            first_json_with(ns, part@, 0) == first_json_with(ns, part@, i as int),
        decreases names@.len() - i,
    {
        assert(ns[i as int] == names@[i as int]@);
        if is_json_file(&names[i]) && chars_contains(&names[i], &p) {
            return Some(i);
        }
        i = i + 1;
    }
    None
}

/// Choose the files to read from the names of a folder's entries.
pub fn data_file_indices(names: &Vec<String>) -> (r: DataFiles)
    ensures
        opt_index(r.chat_history) == first_json_with(crate::strings::strings_views(names@), "chat_history"@, 0),
        opt_index(r.logs) == first_json_with(crate::strings::strings_views(names@), "logs"@, 0),
        opt_index(r.traces) == first_json_with(crate::strings::strings_views(names@), "traces"@, 0),
{
    let ghost ns = crate::strings::strings_views(names@);
    let mut cs: Vec<Vec<char>> = Vec::new();
    let mut i: usize = 0;
    while i < names.len()
        invariant
            0 <= i <= names@.len(),
            ns == crate::strings::strings_views(names@),
            cs@.len() == i,
            forall|j: int| 0 <= j < i ==> #[trigger] cs@[j]@ == ns[j],
        decreases names@.len() - i,
    {
        cs.push(chars_of(names[i].as_str()));
        i = i + 1;
    }
    DataFiles {
        chat_history: first_json_index(&cs, "chat_history", Ghost(ns)),
        logs: first_json_index(&cs, "logs", Ghost(ns)),
        traces: first_json_index(&cs, "traces", Ghost(ns)),
    }
}

} // verus!

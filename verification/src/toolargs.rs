//! Short forms of a tool call's arguments and output as the text reports
//! show them.

use vstd::prelude::*;
use vstd::view::View as _;
use vstd::utf8::{decode_utf8, encode_utf8, is_char_boundary};
use crate::data::ConversationTurn;
use crate::json::{Json, JsonModel, entry_index, entry_models, json_text_parse, lemma_entry_models, model, parse_json_text};
use crate::strings::{byte_len, concat_str, prefix_bytes_str, str_byte_len};
use crate::timeline::{extra_text, extra_text_exec, join_comma};

verus! {

/// The compact JSON text of a value, as `serde_json` writes a
/// `serde_json::Value` (`to_string`).
pub uninterp spec fn json_compact(v: JsonModel) -> Seq<char>;

/// The library's JSON value as a `serde_json::Value`, variant for variant; a
/// number is read back from its text. This is the conversion of
/// `compact_text`'s argument, and claims nothing itself.
#[verifier::external_body]
fn value_of_json(v: &Json) -> serde_json::Value {
    match v {
        Json::Null => serde_json::Value::Null,
        Json::Bool(b) => serde_json::Value::Bool(*b),
        Json::Number(n) => serde_json::from_str(&n.text).unwrap_or(serde_json::Value::Null),
        Json::Str(s) => serde_json::Value::String(s.clone()),
        Json::Array(a) => serde_json::Value::Array(a.iter().map(value_of_json).collect()),
        Json::Object(o) => serde_json::Value::Object(o.iter().map(|(k, x)| (k.clone(), value_of_json(x))).collect()),
    }
}

/// `serde_json::Value::to_string` on the value: its compact JSON text, the
/// text `json_compact` names.
#[verifier::external_body]
fn compact_text(v: &Json) -> (r: String)
    ensures
        r@ == json_compact(model(*v)),
{
    value_of_json(v).to_string()
}

/// The text of a call's arguments: a string as it is, any other value as
/// its compact JSON text.
pub fn arguments_text(v: &Json) -> (r: String)
    ensures
        r@ == match model(*v) {
            JsonModel::Str(s) => s,
            m => json_compact(m),
        },
{
    match v {
        Json::Str(s) => s.clone(),
        _ => compact_text(v),
    }
}

/// The first `n` bytes of a text's UTF-8 encoding, as text.
pub open spec fn cut_bytes(s: Seq<char>, n: int) -> Seq<char> {
    decode_utf8(encode_utf8(s).subrange(0, n))
}

/// A text longer than `limit` bytes can be cut after `keep` bytes.
pub open spec fn cut_ok(s: Seq<char>, limit: int, keep: int) -> bool {
    byte_len(s) <= limit || is_char_boundary(encode_utf8(s), keep)
}

/// A text in quotes, cut to `keep` bytes and marked when longer than
/// `limit` bytes.
pub open spec fn quoted_short(s: Seq<char>, limit: int, keep: int) -> Seq<char> {
    if byte_len(s) > limit {
        "\""@ + cut_bytes(s, keep) + "...\""@
    } else {
        "\""@ + s + "\""@
    }
}

/// A text cut to `keep` bytes and marked when longer than `limit` bytes.
pub open spec fn cut_tail(s: Seq<char>, limit: int, keep: int) -> Seq<char> {
    if byte_len(s) > limit {
        cut_bytes(s, keep) + "..."@
    } else {
        s
    }
}

fn quoted_short_text(s: &str, limit: usize, keep: usize) -> (r: Option<String>)
    requires
        keep <= limit,
    ensures
        match r {
            Some(t) => cut_ok(s@, limit as int, keep as int) && t@ == quoted_short(s@, limit as int, keep as int),
            None => !cut_ok(s@, limit as int, keep as int),
        },
{
    if str_byte_len(s) > limit {
        if !s.is_char_boundary(keep) {
            return None;
        }
        let head = prefix_bytes_str(s, keep);
        let a = concat_str("\"", head);
        let r = concat_str(a.as_str(), "...\"");
        assert(r@ == "\""@ + head@ + "...\""@);
        Some(r)
    } else {
        let a = concat_str("\"", s);
        Some(concat_str(a.as_str(), "\""))
    }
}

fn cut_tail_text(s: &str, limit: usize, keep: usize) -> (r: Option<String>)
    requires
        keep <= limit,
    ensures
        match r {
            Some(t) => cut_ok(s@, limit as int, keep as int) && t@ == cut_tail(s@, limit as int, keep as int),
            None => !cut_ok(s@, limit as int, keep as int),
        },
{
    if str_byte_len(s) > limit {
        if !s.is_char_boundary(keep) {
            return None;
        }
        let head = prefix_bytes_str(s, keep);
        Some(concat_str(head, "..."))
    } else {
        Some(String::from_str(s))
    }
}

/// How the transcript shows one argument value: a string quoted and cut to
/// 37 bytes beyond 40, a null not at all, another value as compact JSON.
pub open spec fn text_value(v: JsonModel) -> Option<Seq<char>> {
    match v {
        JsonModel::Str(s) => Some(quoted_short(s, 40, 37)),
        JsonModel::Null => None,
        _ => Some(json_compact(v)),
    }
}

pub open spec fn text_value_ok(v: JsonModel) -> bool {
    match v {
        JsonModel::Str(s) => cut_ok(s, 40, 37),
        _ => true,
    }
}

/// Progress through the arguments: the parts so far, their length with two
/// bytes of separator each, whether the list was cut off, and whether
/// every value so far could be cut.
pub struct ArgsScan {
    pub parts: Seq<Seq<char>>,
    pub total: int,
    pub stopped: bool,
    pub ok: bool,
}

/// The transcript's parts of the first `n` arguments: `key=value` for each
/// shown value, until the running length passes 80 bytes, where "..." ends
/// the list.
pub open spec fn text_scan(es: Seq<(Seq<char>, JsonModel)>, n: int) -> ArgsScan
    decreases n,
{
    if n <= 0 {
        ArgsScan { parts: Seq::empty(), total: 0, stopped: false, ok: true }
    } else {
        let st = text_scan(es, n - 1);
        let e = es[n - 1];
        if st.stopped || !st.ok {
            st
        } else if !text_value_ok(e.1) {
            ArgsScan { ok: false, ..st }
        } else {
            match text_value(e.1) {
                None => st,
                Some(v) => {
                    let part = e.0 + "="@ + v;
                    let t = st.total + byte_len(part) + 2;
                    if t > 80 {
                        ArgsScan { parts: st.parts.push("..."@), total: t, stopped: true, ok: true }
                    } else {
                        ArgsScan { parts: st.parts.push(part), total: t, stopped: false, ok: true }
                    }
                },
            }
        }
    }
}

/// The transcript's short form of a call's arguments: for a JSON object its
/// parts joined with ", "; nothing for any other text; none where a string
/// value would be cut inside a character.
pub open spec fn spec_args_text_summary(args: Seq<char>) -> Option<Seq<char>> {
    match json_text_parse(args) {
        Some(JsonModel::Object(es)) => {
            let st = text_scan(es, es.len() as int);
            if st.ok {
                Some(join_comma(st.parts))
            } else {
                None
            }
        },
        _ => Some(Seq::empty()),
    }
}

proof fn lemma_scan_stuck(es: Seq<(Seq<char>, JsonModel)>, i: int, m: int)
    requires
        0 <= i <= m,
        text_scan(es, i).stopped || !text_scan(es, i).ok,
    ensures
        text_scan(es, m) == text_scan(es, i),
    decreases m - i,
{
    if m > i {
        lemma_scan_stuck(es, i, m - 1);
    }
}

proof fn lemma_join_push(ps: Seq<Seq<char>>, x: Seq<char>)
    ensures
        join_comma(ps.push(x)) == if ps.len() == 0 { x } else { join_comma(ps) + ", "@ + x },
{
    assert(ps.push(x).drop_last() =~= ps);
}

/// The transcript's short form of a call's arguments (see
/// `spec_args_text_summary`).
pub fn summarize_tool_args_text(args: &str) -> (r: Option<String>)
    ensures
        match r {
            Some(t) => spec_args_text_summary(args@) == Some(t@),
            None => spec_args_text_summary(args@) is None,
        },
{
    let doc = parse_json_text(args);
    let entries = match &doc {
        Some(Json::Object(o)) => o,
        _ => return Some(String::new()),
    };
    proof {
        lemma_entry_models(entries@);
    }
    let ghost es = entry_models(entries@);
    assert(json_text_parse(args@) == Some(JsonModel::Object(es)));
    let mut out = String::new();
    let mut total: u128 = 0;
    let mut stopped = false;
    let mut empty = true;
    let ghost mut parts: Seq<Seq<char>> = Seq::empty();
    let mut i: usize = 0;
    while i < entries.len() && !stopped
        invariant
            0 <= i <= entries@.len(),
            es == entry_models(entries@),
            json_text_parse(args@) == Some(JsonModel::Object(es)),
            es.len() == entries@.len(),
            forall|j: int| 0 <= j < entries@.len() ==> #[trigger] es[j] == (entries@[j].0@, model(entries@[j].1)),
            text_scan(es, i as int) == (ArgsScan { parts, total: total as int, stopped, ok: true }),
            !stopped ==> total <= 80,
            empty == (parts.len() == 0),
            out@ == join_comma(parts),
        decreases entries@.len() - i,
    {
        let k = &entries[i].0;
        let v = &entries[i].1;
        assert(es[i as int] == (k@, model(*v)));
        let val: Option<String> = match v {
            Json::Str(s) => match quoted_short_text(s.as_str(), 40, 37) {
                Some(t) => Some(t),
                None => {
                    proof {
                        assert(text_scan(es, i + 1).ok == false);
                        lemma_scan_stuck(es, i + 1, es.len() as int);
                        assert(text_scan(es, es.len() as int).ok == false);
                        assert(spec_args_text_summary(args@) is None);
                    }
                    return None;
                },
            },
            Json::Null => None,
            _ => Some(compact_text(v)),
        };
        match val {
            None => {},
            Some(vt) => {
                let a = concat_str(k.as_str(), "=");
                let part = concat_str(a.as_str(), vt.as_str());
                let plen = str_byte_len(part.as_str());
                let t: u128 = total + plen as u128 + 2;
                let piece = if t > 80 {
                    stopped = true;
                    String::from_str("...")
                } else {
                    part
                };
                proof {
                    lemma_join_push(parts, piece@);
                }
                if empty {
                    out = piece;
                } else {
                    let with_sep = concat_str(out.as_str(), ", ");
                    out = concat_str(with_sep.as_str(), piece.as_str());
                }
                proof {
                    parts = parts.push(piece@);
                }
                empty = false;
                total = t;
            },
        }
        i = i + 1;
    }
    proof {
        if stopped {
            lemma_scan_stuck(es, i as int, es.len() as int);
        }
    }
    Some(out)
}

/// How the timeline shows one argument value: a string quoted and cut to 47
/// bytes beyond 50, another value as compact JSON cut the same way.
pub open spec fn timeline_value(v: JsonModel) -> Seq<char> {
    match v {
        JsonModel::Str(s) => quoted_short(s, 50, 47),
        _ => cut_tail(json_compact(v), 50, 47),
    }
}

pub open spec fn timeline_value_ok(v: JsonModel) -> bool {
    match v {
        JsonModel::Str(s) => cut_ok(s, 50, 47),
        _ => cut_ok(json_compact(v), 50, 47),
    }
}

pub open spec fn timeline_parts(es: Seq<(Seq<char>, JsonModel)>) -> Seq<Seq<char>> {
    es.map_values(|e: (Seq<char>, JsonModel)| e.0 + "="@ + timeline_value(e.1))
}

/// The timeline's short form of a call's arguments: for a JSON object every
/// entry as `key=value` joined with ", "; otherwise the text itself, cut to
/// 77 bytes beyond 80; none where a cut would fall inside a character.
pub open spec fn spec_args_summary(args: Seq<char>) -> Option<Seq<char>> {
    match json_text_parse(args) {
        Some(JsonModel::Object(es)) => if forall|i: int| 0 <= i < es.len() ==> timeline_value_ok(#[trigger] es[i].1) {
            Some(join_comma(timeline_parts(es)))
        } else {
            None
        },
        _ => if cut_ok(args, 80, 77) {
            Some(cut_tail(args, 80, 77))
        } else {
            None
        },
    }
}

/// The timeline's short form of a call's arguments (see
/// `spec_args_summary`).
pub fn summarize_tool_args(args: &str) -> (r: Option<String>)
    ensures
        match r {
            Some(t) => spec_args_summary(args@) == Some(t@),
            None => spec_args_summary(args@) is None,
        },
{
    let doc = parse_json_text(args);
    let entries = match &doc {
        Some(Json::Object(o)) => o,
        _ => return cut_tail_text(args, 80, 77),
    };
    proof {
        lemma_entry_models(entries@);
    }
    let ghost es = entry_models(entries@);
    assert(json_text_parse(args@) == Some(JsonModel::Object(es)));
    let mut out = String::new();
    let mut i: usize = 0;
    while i < entries.len()
        invariant
            0 <= i <= entries@.len(),
            es == entry_models(entries@),
            json_text_parse(args@) == Some(JsonModel::Object(es)),
            es.len() == entries@.len(),
            forall|j: int| 0 <= j < entries@.len() ==> #[trigger] es[j] == (entries@[j].0@, model(entries@[j].1)),
            forall|j: int| 0 <= j < i ==> timeline_value_ok(#[trigger] es[j].1),
            out@ == join_comma(timeline_parts(es.take(i as int))),
        decreases entries@.len() - i,
    {
        let k = &entries[i].0;
        let v = &entries[i].1;
        assert(es[i as int] == (k@, model(*v)));
        let shown = match v {
            Json::Str(s) => quoted_short_text(s.as_str(), 50, 47),
            _ => {
                let c = compact_text(v);
                cut_tail_text(c.as_str(), 50, 47)
            },
        };
        let vt = match shown {
            Some(t) => t,
            None => {
                assert(!timeline_value_ok(es[i as int].1));
                assert(spec_args_summary(args@) is None);
                return None;
            },
        };
        let a = concat_str(k.as_str(), "=");
        let part = concat_str(a.as_str(), vt.as_str());
        proof {
            assert(es.take(i + 1) =~= es.take(i as int).push(es[i as int]));
            assert(timeline_parts(es.take(i + 1)) =~= timeline_parts(es.take(i as int)).push(part@));
            lemma_join_push(timeline_parts(es.take(i as int)), part@);
        }
        if i == 0 {
            out = part;
        } else {
            let with_sep = concat_str(out.as_str(), ", ");
            out = concat_str(with_sep.as_str(), part.as_str());
        }
        i = i + 1;
    }
    assert(es.take(i as int) =~= es);
    Some(out)
}

/// How a tool's output is shown: "ok" for an empty or "ok" output,
/// otherwise the output cut to `limit - 3` bytes and marked beyond `limit`.
pub open spec fn spec_output_shown(o: Seq<char>, limit: int) -> Seq<char> {
    if o.len() == 0 || o == "ok"@ || o == "\"ok\""@ {
        "ok"@
    } else {
        cut_tail(o, limit, limit - 3)
    }
}

/// The shown form of a tool's output (see `spec_output_shown`); the cut
/// must fall on a character boundary.
pub fn output_shown(output: &str, limit: usize) -> (r: String)
    requires
        3 <= limit,
        cut_ok(output@, limit as int, limit - 3),
    ensures
        r@ == spec_output_shown(output@, limit as int),
{
    proof {
        reveal_strlit("ok");
        reveal_strlit("\"ok\"");
    }
    if output.is_empty() || crate::strings::str_eq(output, "ok") || crate::strings::str_eq(output, "\"ok\"") {
        String::from_str("ok")
    } else {
        match cut_tail_text(output, limit, limit - 3) {
            Some(t) => t,
            None => String::from_str("ok"),
        }
    }
}

/// The string value of an item's extra field, or a default.
pub fn extra_text_or<'a>(t: &'a ConversationTurn, key: &str, default: &'a str) -> (r: &'a str)
    ensures
        r@ == match extra_text(*t, key@) {
            Some(s) => s,
            None => default@,
        },
{
    match extra_text_exec(t, key) {
        Some(s) => s,
        None => default,
    }
}

/// The agent a handoff item hands over to: its "new_agent_id", else the
/// item's id.
pub fn handoff_target(t: &ConversationTurn) -> (r: &str)
    ensures
        r@ == match extra_text(*t, "new_agent_id"@) {
            Some(s) => s,
            None => t.id@,
        },
{
    extra_text_or(t, "new_agent_id", t.id.as_str())
}

/// The text of an argument value (see `arguments_text`).
pub open spec fn args_text_of(m: JsonModel) -> Seq<char> {
    match m {
        JsonModel::Str(s) => s,
        m => json_compact(m),
    }
}

/// The text of a function-call item's "arguments" field, when it has one.
pub fn call_arguments(t: &ConversationTurn) -> (r: Option<String>)
    ensures
        match entry_index(entry_models(t.extra@), "arguments"@, 0) {
            Some(i) => r matches Some(x) && x@ == args_text_of(entry_models(t.extra@)[i].1),
            None => r is None,
        },
{
    proof {
        lemma_entry_models(t.extra@);
    }
    let ghost es = entry_models(t.extra@);
    let mut i: usize = 0;
    while i < t.extra.len()
        invariant
            0 <= i <= t.extra@.len(),
            es == entry_models(t.extra@),
            es.len() == t.extra@.len(),
            forall|j: int| 0 <= j < t.extra@.len() ==> #[trigger] es[j] == (t.extra@[j].0@, model(t.extra@[j].1)),
            entry_index(es, "arguments"@, 0) == entry_index(es, "arguments"@, i as int),
        decreases t.extra.len() - i,
    {
        assert(es[i as int] == (t.extra@[i as int].0@, model(t.extra@[i as int].1)));
        if crate::strings::str_eq(t.extra[i].0.as_str(), "arguments") {
            return Some(arguments_text(&t.extra[i].1));
        }
        i = i + 1;
    }
    None
}

} // verus!

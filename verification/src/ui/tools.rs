//! Helpers of the tools view: the log lines that tell a tool call's error
//! and arguments, and the layout of an error message and of a Python-style
//! argument dictionary.

use vstd::prelude::*;
use vstd::view::View as _;
use vstd::utf8::{decode_utf8, encode_utf8, is_char_boundary};
use crate::strings::{
    byte_len, char_chunks, chars_byte_len, chars_contains, chars_of, chars_range, chars_trim_end_matches,
    chunk_chars, concat_str, contains_seq, find_char, find_seq, first_index_of, first_occurrence,
    prefix_bytes_str, split_on, split_seq, string_from_chars, strings_views, trim, trim_chars,
    trim_end_matches,
};
use crate::app::sat_sub;
use crate::data::LogEntry;
use crate::report::concat_all;
use crate::strings::{chars_concat, chars_views, str_byte_len};

verus! {

/// The characters of the first `n` bytes of the UTF-8 form of `s`.
pub open spec fn prefix_bytes(s: Seq<char>, n: int) -> Seq<char> {
    decode_utf8(encode_utf8(s).subrange(0, n))
}

/// One traceback line: indented by two spaces, and when it has more than
/// `w` bytes cut to its first `w - 5` bytes followed by "...".
pub open spec fn traceback_line(l: Seq<char>, w: int) -> Seq<char> {
    if byte_len(l) <= w {
        "  "@ + l
    } else {
        "  "@ + prefix_bytes(l, sat_sub(w, 5)) + "..."@
    }
}

/// The traceback lines of the pieces that are not blank, each trimmed.
pub open spec fn traceback_lines(pieces: Seq<Seq<char>>, w: int) -> Seq<Seq<char>>
    decreases pieces.len(),
{
    if pieces.len() == 0 {
        Seq::empty()
    } else {
        let done = traceback_lines(pieces.drop_last(), w);
        let t = trim(pieces.last());
        if t.len() > 0 {
            done.push(traceback_line(t, w))
        } else {
            done
        }
    }
}

/// Each long traceback piece is cut on a character boundary.
pub open spec fn traceback_cuts_ok(pieces: Seq<Seq<char>>, w: int) -> bool {
    forall|i: int|
        0 <= i < pieces.len() && byte_len(trim(#[trigger] pieces[i])) > w ==> is_char_boundary(
            encode_utf8(trim(pieces[i])),
            sat_sub(w, 5),
        )
}

/// What follows the failure marker "PROBOOK_FAILURE]" in an error message.
pub open spec fn failure_rest(error: Seq<char>) -> Option<Seq<char>> {
    match first_occurrence(error, "PROBOOK_FAILURE]"@) {
        Some(s) => Some(error.skip(s + "PROBOOK_FAILURE]"@.len())),
        None => None,
    }
}

/// The traceback text of a tool failure: from "Traceback" on, in the part
/// after the first '|' of the failure, when that part also holds "args:".
pub open spec fn failure_traceback(error: Seq<char>) -> Option<Seq<char>> {
    match failure_rest(error) {
        None => None,
        Some(rest) => match first_index_of(rest, '|') {
            None => None,
            Some(p) => {
                let after = rest.skip(p + 1);
                if first_occurrence(after, "args:"@) is Some {
                    match first_occurrence(after, "Traceback"@) {
                        Some(t) => Some(after.skip(t)),
                        None => None,
                    }
                } else {
                    None
                }
            },
        },
    }
}

/// Inputs on which the error layout is defined: a width for the plain
/// layout, and traceback lines that can be cut on character boundaries.
pub open spec fn format_error_ok(error: Seq<char>, w: int) -> bool {
    &&& !contains_seq(error, "PROBOOK_FAILURE"@) ==> w > 0
    &&& match failure_traceback(error) {
        Some(tb) => traceback_cuts_ok(split_on(tb, ">>"@), w),
        None => true,
    }
}

/// Lines showing an error message. A tool failure ("PROBOOK_FAILURE]")
/// gives its type (before the first '|'), its message (before "args:") and
/// its traceback, one line per ">>"-separated frame; any other message is
/// cut into lines of `w` characters.
pub open spec fn spec_format_error(error: Seq<char>, w: int) -> Seq<Seq<char>> {
    if !contains_seq(error, "PROBOOK_FAILURE"@) {
        char_chunks(error, w)
    } else {
        match failure_rest(error) {
            None => Seq::empty(),
            Some(rest) => match first_index_of(rest, '|') {
                None => Seq::empty(),
                Some(p) => {
                    let after = rest.skip(p + 1);
                    let type_line = "Type: "@ + trim(rest.take(p));
                    match first_occurrence(after, "args:"@) {
                        None => seq![type_line],
                        Some(a) => {
                            let message = trim(trim_end_matches(trim(after.take(a)), '|'));
                            let head = seq![type_line, "Message: "@ + message, Seq::<char>::empty()];
                            match first_occurrence(after, "Traceback"@) {
                                None => head,
                                Some(t) => head.push("Traceback:"@) + traceback_lines(
                                    split_on(after.skip(t), ">>"@),
                                    w,
                                ),
                            }
                        },
                    }
                },
            },
        }
    }
}

fn traceback_cut(line: &Vec<char>, max_width: usize) -> (r: String)
    requires
        line@.len() > 0,
        byte_len(line@) > max_width ==> is_char_boundary(encode_utf8(line@), sat_sub(max_width as int, 5)),
    ensures
        r@ == traceback_line(line@, max_width as int),
{
    let s = string_from_chars(line.as_slice());
    let n = chars_byte_len(line);
    if n <= max_width as u128 {
        concat_str("  ", s.as_str())
    } else {
        let head = prefix_bytes_str(s.as_str(), max_width.saturating_sub(5));
        let indented = concat_str("  ", head);
        let r = concat_str(indented.as_str(), "...");
        r
    }
}

/// Format error message for display.
pub fn format_error(error: &str, max_width: usize) -> (lines: Vec<String>)
    requires
        format_error_ok(error@, max_width as int),
    ensures
        strings_views(lines@) == spec_format_error(error@, max_width as int),
{
    let ev = chars_of(error);
    let marker = chars_of("PROBOOK_FAILURE");
    if !chars_contains(&ev, &marker) {
        return chunk_chars(&ev, max_width);
    }
    let mut lines: Vec<String> = Vec::new();
    let end_marker = chars_of("PROBOOK_FAILURE]");
    let found = find_seq(&ev, &end_marker);
    let s = match found {
        None => return lines,
        Some(s) => s,
    };
    let ml = end_marker.len();
    let el = ev.len();
    let rest = chars_range(&ev, s + ml, el);
    assert(rest@ =~= ev@.skip(s + "PROBOOK_FAILURE]"@.len()));
    let pipe = find_char(&rest, '|');
    let p = match pipe {
        None => return lines,
        Some(p) => p,
    };
    let kind = trim_chars(&chars_range(&rest, 0, p));
    assert(rest@.subrange(0, p as int) =~= rest@.take(p as int));
    let kind_s = string_from_chars(kind.as_slice());
    lines.push(concat_str("Type: ", kind_s.as_str()));
    let after = chars_range(&rest, p + 1, rest.len());
    assert(after@ =~= rest@.skip(p + 1));
    let args = find_seq(&after, &chars_of("args:"));
    let a = match args {
        None => {
            assert(strings_views(lines@) =~= seq![lines@[0]@]);
            return lines;
        },
        Some(a) => a,
    };
    let before_args = chars_range(&after, 0, a);
    assert(before_args@ =~= after@.take(a as int));
    let message = trim_chars(&chars_trim_end_matches(&trim_chars(&before_args), '|'));
    let message_s = string_from_chars(message.as_slice());
    lines.push(concat_str("Message: ", message_s.as_str()));
    lines.push(String::new());
    let ghost head = seq![lines@[0]@, lines@[1]@, lines@[2]@];
    assert(strings_views(lines@) =~= head);
    let tb = find_seq(&after, &chars_of("Traceback"));
    let t = match tb {
        None => return lines,
        Some(t) => t,
    };
    lines.push(String::from_str("Traceback:"));
    let tail = chars_range(&after, t, after.len());
    assert(tail@ =~= after@.skip(t as int));
    let sep = chars_of(">>");
    proof {
        reveal_strlit(">>");
    }
    let pieces = split_seq(&tail, &sep);
    let ghost pv = split_on(tail@, ">>"@);
    assert(failure_traceback(error@) == Some(tail@));
    assert(traceback_cuts_ok(pv, max_width as int));
    let ghost start = strings_views(lines@);
    assert(start =~= head.push("Traceback:"@));
    let mut k: usize = 0;
    while k < pieces.len()
        invariant
            0 <= k <= pieces.len(),
            pv == crate::strings::chars_views(pieces@),
            traceback_cuts_ok(pv, max_width as int),
            strings_views(lines@) == start + traceback_lines(pv.take(k as int), max_width as int),
        decreases pieces.len() - k,
    {
        let piece = trim_chars(&pieces[k]);
        assert(pv[k as int] == pieces@[k as int]@);
        assert(pv.take(k + 1).drop_last() =~= pv.take(k as int));
        let ghost before = lines@;
        if piece.len() > 0 {
            let line = traceback_cut(&piece, max_width);
            lines.push(line);
            assert(strings_views(lines@) =~= strings_views(before).push(line@));
        }
        k = k + 1;
    }
    assert(pv.take(k as int) =~= pv);
    lines
}

/// The inside of a dictionary text: trimmed, then without its leading '{'
/// and trailing '}' characters.
pub open spec fn dict_core(s: Seq<char>) -> Seq<char> {
    trim_end_matches(crate::strings::trim_start_matches(trim(s), '{'), '}')
}

/// The key of an item, with its colon, and the trimmed value after it.
pub open spec fn item_key(t: Seq<char>, c: int) -> Seq<char> {
    t.take(c + 1)
}

pub open spec fn item_value(t: Seq<char>, c: int) -> Seq<char> {
    trim(t.skip(c + 1))
}

/// The line of a complete dictionary item `t` (not blank): the item itself
/// when it has at most `w` bytes; otherwise, with a key, the key and the
/// first 20 bytes of the value followed by "..." when the value is longer
/// than the room the key leaves, and without a key its first `w - 3` bytes
/// followed by "...".
pub open spec fn dict_item_line(t: Seq<char>, w: int) -> Seq<char> {
    if byte_len(t) <= w {
        t
    } else {
        match first_index_of(t, ':') {
            Some(c) => {
                let key = item_key(t, c);
                let value = item_value(t, c);
                if byte_len(value) > w - byte_len(key) - 3 {
                    key + " "@ + prefix_bytes(value, crate::app::min(20, byte_len(value) as int)) + "..."@
                } else {
                    t
                }
            },
            None => prefix_bytes(t, sat_sub(w, 3)) + "..."@,
        }
    }
}

/// The line of an item is defined: the room the key leaves is not negative
/// and the cuts fall on character boundaries.
pub open spec fn dict_item_ok(t: Seq<char>, w: int) -> bool {
    byte_len(t) <= w || match first_index_of(t, ':') {
        Some(c) => {
            let key = item_key(t, c);
            let value = item_value(t, c);
            &&& byte_len(key) + 3 <= w
            &&& byte_len(value) > w - byte_len(key) - 3 ==> is_char_boundary(
                encode_utf8(value),
                crate::app::min(20, byte_len(value) as int),
            )
        },
        None => is_char_boundary(encode_utf8(t), sat_sub(w, 3)),
    }
}

/// State of the scan of a dictionary text: the lines of the items ended so
/// far, the item being read, the bracket depth, and whether every ended item
/// had a defined line.
pub struct DictScan {
    pub lines: Seq<Seq<char>>,
    pub cur: Seq<char>,
    pub depth: int,
    pub ok: bool,
}

pub open spec fn is_open_bracket(c: char) -> bool {
    c == '{' || c == '[' || c == '('
}

pub open spec fn is_close_bracket(c: char) -> bool {
    c == '}' || c == ']' || c == ')'
}

/// One character of the scan: brackets change the depth, a comma outside
/// brackets ends an item, anything else joins the current item.
pub open spec fn dict_step(st: DictScan, c: char, w: int) -> DictScan {
    if is_open_bracket(c) {
        DictScan { lines: st.lines, cur: st.cur.push(c), depth: st.depth + 1, ok: st.ok }
    } else if is_close_bracket(c) {
        DictScan { lines: st.lines, cur: st.cur.push(c), depth: st.depth - 1, ok: st.ok }
    } else if c == ',' && st.depth == 0 {
        let t = trim(st.cur);
        if t.len() > 0 {
            DictScan {
                lines: st.lines.push(dict_item_line(t, w)),
                cur: Seq::empty(),
                depth: st.depth,
                ok: st.ok && dict_item_ok(t, w),
            }
        } else {
            DictScan { lines: st.lines, cur: Seq::empty(), depth: st.depth, ok: st.ok }
        }
    } else {
        DictScan { lines: st.lines, cur: st.cur.push(c), depth: st.depth, ok: st.ok }
    }
}

pub open spec fn dict_scan(s: Seq<char>, w: int) -> DictScan
    decreases s.len(),
{
    if s.len() == 0 {
        DictScan { lines: Seq::empty(), cur: Seq::empty(), depth: 0, ok: true }
    } else {
        dict_step(dict_scan(s.drop_last(), w), s.last(), w)
    }
}

/// The line of the last item: itself when it fits in `w` bytes, else its key
/// followed by " [truncated]", and nothing without a key.
pub open spec fn dict_last_lines(t: Seq<char>, w: int) -> Seq<Seq<char>> {
    if t.len() == 0 {
        Seq::empty()
    } else if byte_len(t) <= w {
        seq![t]
    } else {
        match first_index_of(t, ':') {
            Some(c) => seq![item_key(t, c) + " [truncated]"@],
            None => Seq::empty(),
        }
    }
}

/// Lines showing a Python-style dictionary text, one per top-level item.
pub open spec fn spec_format_python_dict(s: Seq<char>, w: int) -> Seq<Seq<char>> {
    let st = dict_scan(dict_core(s), w);
    st.lines + dict_last_lines(trim(st.cur), w)
}

/// The scan of a prefix had only defined lines when the whole scan had.
pub proof fn lemma_dict_scan_ok_prefix(s: Seq<char>, i: int, w: int)
    requires
        0 <= i <= s.len(),
        dict_scan(s, w).ok,
    ensures
        dict_scan(s.take(i), w).ok,
    decreases s.len(),
{
    if i < s.len() {
        lemma_dict_scan_ok_prefix(s.drop_last(), i, w);
        assert(s.drop_last().take(i) =~= s.take(i));
    } else {
        assert(s.take(i) =~= s);
    }
}

fn dict_item_line_exec(t: &Vec<char>, max_width: usize) -> (r: String)
    requires
        dict_item_ok(t@, max_width as int),
    ensures
        r@ == dict_item_line(t@, max_width as int),
{
    let tb = chars_byte_len(t);
    if tb <= max_width as u128 {
        return string_from_chars(t.as_slice());
    }
    let colon = find_char(t, ':');
    match colon {
        Some(c) => {
            let tl = t.len();
            assert(c < tl);
            let key = chars_range(t, 0, c + 1);
            assert(key@ =~= item_key(t@, c as int));
            let value = trim_chars(&chars_range(t, c + 1, tl));
            assert(t@.subrange(c + 1, tl as int) =~= t@.skip(c + 1));
            let kb = chars_byte_len(&key);
            let vb = chars_byte_len(&value);
            if vb > (max_width as u128) - kb - 3 {
                let cut: usize = if vb < 20 { vb as usize } else { 20 };
                let vs = string_from_chars(value.as_slice());
                let head = prefix_bytes_str(vs.as_str(), cut);
                let ks = string_from_chars(key.as_slice());
                let a = concat_str(ks.as_str(), " ");
                let b = concat_str(a.as_str(), head);
                concat_str(b.as_str(), "...")
            } else {
                string_from_chars(t.as_slice())
            }
        },
        None => {
            let ts = string_from_chars(t.as_slice());
            let head = prefix_bytes_str(ts.as_str(), max_width.saturating_sub(3));
            concat_str(head, "...")
        },
    }
}

fn dict_last_lines_exec(t: &Vec<char>, max_width: usize) -> (r: Vec<String>)
    ensures
        strings_views(r@) == dict_last_lines(t@, max_width as int),
{
    let mut r: Vec<String> = Vec::new();
    if t.len() == 0 {
        assert(strings_views(r@) =~= Seq::<Seq<char>>::empty());
        return r;
    }
    let tb = chars_byte_len(t);
    if tb <= max_width as u128 {
        r.push(string_from_chars(t.as_slice()));
        assert(strings_views(r@) =~= seq![t@]);
        return r;
    }
    let colon = find_char(t, ':');
    match colon {
        Some(c) => {
            let tl = t.len();
            assert(c < tl);
            let key = chars_range(t, 0, c + 1);
            assert(key@ =~= item_key(t@, c as int));
            let ks = string_from_chars(key.as_slice());
            let line = concat_str(ks.as_str(), " [truncated]");
            r.push(line);
            assert(strings_views(r@) =~= seq![line@]);
        },
        None => {
            assert(strings_views(r@) =~= Seq::<Seq<char>>::empty());
        },
    }
    r
}

/// Format a Python dict-like string for display.
pub fn format_python_dict(s: &str, max_width: usize) -> (lines: Vec<String>)
    requires
        dict_scan(dict_core(s@), max_width as int).ok,
    ensures
        strings_views(lines@) == spec_format_python_dict(s@, max_width as int),
{
    let sv = chars_of(s);
    let trimmed = trim_chars(&sv);
    let opened = crate::strings::chars_trim_start_matches(&trimmed, '{');
    let core = chars_trim_end_matches(&opened, '}');
    let ghost w = max_width as int;
    let mut lines: Vec<String> = Vec::new();
    let mut current: Vec<char> = Vec::new();
    let mut depth: i128 = 0;
    let mut i: usize = 0;
    assert(core@.take(0) =~= Seq::<char>::empty());
    assert(strings_views(lines@) =~= Seq::<Seq<char>>::empty());
    while i < core.len()
        invariant
            0 <= i <= core.len(),
            core@ == dict_core(s@),
            w == max_width as int,
            dict_scan(core@, w).ok,
            -(i as int) <= depth <= i as int,
            dict_scan(core@.take(i as int), w).lines == strings_views(lines@),
            dict_scan(core@.take(i as int), w).cur == current@,
            dict_scan(core@.take(i as int), w).depth == depth as int,
        decreases core.len() - i,
    {
        let c = core[i];
        proof {
            assert(core@.take(i + 1).drop_last() =~= core@.take(i as int));
            lemma_dict_scan_ok_prefix(core@, i + 1, w);
        }
        if c == '{' || c == '[' || c == '(' {
            depth = depth + 1;
            current.push(c);
        } else if c == '}' || c == ']' || c == ')' {
            depth = depth - 1;
            current.push(c);
        } else if c == ',' && depth == 0 {
            let t = trim_chars(&current);
            if t.len() > 0 {
                let line = dict_item_line_exec(&t, max_width);
                let ghost before = lines@;
                lines.push(line);
                assert(strings_views(lines@) =~= strings_views(before).push(line@));
            }
            current = Vec::new();
            assert(current@ =~= Seq::<char>::empty());
        } else {
            current.push(c);
        }
        i = i + 1;
    }
    assert(core@.take(i as int) =~= core@);
    let t = trim_chars(&current);
    let mut last = dict_last_lines_exec(&t, max_width);
    let ghost before = lines@;
    let ghost lastv = last@;
    lines.append(&mut last);
    assert(strings_views(lines@) =~= strings_views(before) + strings_views(lastv));
    lines
}

/// A failure is looked for within five seconds after a tool call starts.
pub const TOOL_ERROR_WINDOW_NS: i64 = 5_000_000_000;

/// Arguments are looked for from one second before a tool call starts.
pub const ARGS_LEAD_NS: i64 = 1_000_000_000;

/// Arguments without a traceback are cut to this many bytes.
pub const ARGS_MAX_BYTES: usize = 2000;

/// The name with every "_tool" removed.
pub open spec fn without_tool(name: Seq<char>) -> Seq<char> {
    concat_all(split_on(name, "_tool"@))
}

/// A booking-failure log line that names the tool, with or without its
/// "_tool" parts.
pub open spec fn is_tool_failure(msg: Seq<char>, name: Seq<char>) -> bool {
    contains_seq(msg, "PROBOOK_FAILURE"@) && (contains_seq(msg, name) || contains_seq(msg, without_tool(name)))
}

/// The first log at or after position `i`, within five seconds after `t`,
/// that reports a failure of the tool.
pub open spec fn first_failure(logs: Seq<LogEntry>, name: Seq<char>, t: int, i: int) -> Option<int>
    decreases logs.len() - i,
{
    if i < 0 || i >= logs.len() {
        None
    } else if t <= logs[i].timestamp_ns <= t + TOOL_ERROR_WINDOW_NS && is_tool_failure(logs[i].message@, name) {
        Some(i)
    } else {
        first_failure(logs, name, t, i + 1)
    }
}

fn without_tool_exec(name: &Vec<char>) -> (r: Vec<char>)
    ensures
        r@ == without_tool(name@),
{
    proof {
        reveal_strlit("_tool");
    }
    let pieces = split_seq(name, &chars_of("_tool"));
    let ghost pv = chars_views(pieces@);
    let mut out: Vec<char> = Vec::new();
    let mut i: usize = 0;
    assert(pv.take(0) =~= Seq::<Seq<char>>::empty());
    while i < pieces.len()
        invariant
            0 <= i <= pieces@.len(),
            pv == chars_views(pieces@),
            out@ == concat_all(pv.take(i as int)),
        decreases pieces@.len() - i,
    {
        assert(pv.take(i + 1).drop_last() =~= pv.take(i as int));
        assert(pv.take(i + 1).last() == pieces@[i as int]@);
        out = chars_concat(&out, &pieces[i]);
        i = i + 1;
    }
    assert(pv.take(i as int) =~= pv);
    out
}

/// The message of the first booking-failure log that names the tool within
/// five seconds after it started.
pub fn find_tool_error(logs: &Vec<LogEntry>, tool_name: &str, start_ns: i64) -> (r: Option<String>)
    ensures
        match first_failure(logs@, tool_name@, start_ns as int, 0) {
            Some(k) => r matches Some(m) && m@ == logs@[k].message@,
            None => r is None,
        },
{
    let name = chars_of(tool_name);
    let short = without_tool_exec(&name);
    let marker = chars_of("PROBOOK_FAILURE");
    let mut i: usize = 0;
    while i < logs.len()
        invariant
            0 <= i <= logs@.len(),
            name@ == tool_name@,
            short@ == without_tool(tool_name@),
            marker@ == "PROBOOK_FAILURE"@,
            first_failure(logs@, tool_name@, start_ns as int, 0) == first_failure(logs@, tool_name@, start_ns as int, i as int),
        decreases logs@.len() - i,
    {
        let log = &logs[i];
        let t: i128 = log.timestamp_ns as i128;
        if start_ns as i128 <= t && t <= start_ns as i128 + TOOL_ERROR_WINDOW_NS as i128 {
            let msg = chars_of(log.message.as_str());
            if chars_contains(&msg, &marker) && (chars_contains(&msg, &name) || chars_contains(&msg, &short)) {
                return Some(log.message.clone());
            }
        }
        i = i + 1;
    }
    None
}

/// The text after "args:": up to a "Traceback" when there is one, else its
/// first 2000 bytes; trimmed.
pub open spec fn args_text(msg: Seq<char>) -> Seq<char> {
    match first_occurrence(msg, "args:"@) {
        Some(k) => {
            let rest = msg.skip(k + 5);
            match first_occurrence(rest, "Traceback"@) {
                Some(p) => trim(rest.take(p)),
                None => trim(if byte_len(rest) <= ARGS_MAX_BYTES { rest } else { prefix_bytes(rest, ARGS_MAX_BYTES as int) }),
            }
        },
        None => Seq::empty(),
    }
}

/// The text after "args:" can be cut where it is cut: it has a traceback,
/// or it is short, or its 2000th byte ends a character.
pub open spec fn args_cut_ok(msg: Seq<char>) -> bool {
    match first_occurrence(msg, "args:"@) {
        Some(k) => {
            let rest = msg.skip(k + 5);
            first_occurrence(rest, "Traceback"@) is Some || byte_len(rest) <= ARGS_MAX_BYTES || is_char_boundary(
                encode_utf8(rest),
                ARGS_MAX_BYTES as int,
            )
        },
        None => true,
    }
}

/// The first log at or after position `i`, from one second before `t` to
/// five seconds after it, that mentions "args:".
pub open spec fn first_args_log(logs: Seq<LogEntry>, t: int, i: int) -> Option<int>
    decreases logs.len() - i,
{
    if i < 0 || i >= logs.len() {
        None
    } else if t - ARGS_LEAD_NS <= logs[i].timestamp_ns <= t + TOOL_ERROR_WINDOW_NS && contains_seq(
        logs[i].message@,
        "args:"@,
    ) {
        Some(i)
    } else {
        first_args_log(logs, t, i + 1)
    }
}

/// The arguments of a tool call as its log tells them: the text after
/// "args:" in the first log around the call's start that has one; `Ok(None)`
/// when no log has one, and `Err(())` when that text would be cut inside a
/// character.
pub fn extract_tool_args(logs: &Vec<LogEntry>, start_ns: i64) -> (r: Result<Option<String>, ()>)
    ensures
        match first_args_log(logs@, start_ns as int, 0) {
            Some(k) => if args_cut_ok(logs@[k].message@) {
                r matches Ok(Some(a)) && a@ == args_text(logs@[k].message@)
            } else {
                r is Err
            },
            None => r matches Ok(None),
        },
{
    proof {
        reveal_strlit("args:");
    }
    let key = chars_of("args:");
    let mut i: usize = 0;
    while i < logs.len()
        invariant
            0 <= i <= logs@.len(),
            key@ == "args:"@,
            key@.len() == 5,
            first_args_log(logs@, start_ns as int, 0) == first_args_log(logs@, start_ns as int, i as int),
        decreases logs@.len() - i,
    {
        let log = &logs[i];
        let t: i128 = log.timestamp_ns as i128;
        let msg = chars_of(log.message.as_str());
        if start_ns as i128 - ARGS_LEAD_NS as i128 <= t && t <= start_ns as i128 + TOOL_ERROR_WINDOW_NS as i128
            && chars_contains(&msg, &key) {
            let ghost m = log.message@;
            let found = find_seq(&msg, &key);
            let k = match found {
                Some(k) => k,
                None => {
                    proof {
                        crate::strings::lemma_find_from(msg@, key@, 0);
                    }
                    return Ok(None);
                },
            };
            assert(found == Some(k));
            assert(k + key@.len() <= msg@.len());
            assert(key@.len() == 5);
            assert(msg@.len() == msg.len());
            let rest = chars_range(&msg, k + 5, msg.len());
            assert(rest@ =~= m.skip(k + 5));
            match find_seq(&rest, &chars_of("Traceback")) {
                Some(p) => {
                    let head = chars_range(&rest, 0, p);
                    assert(head@ =~= rest@.take(p as int));
                    let t = trim_chars(&head);
                    return Ok(Some(string_from_chars(t.as_slice())));
                },
                None => {
                    let rs = string_from_chars(rest.as_slice());
                    if str_byte_len(rs.as_str()) <= ARGS_MAX_BYTES {
                        let t = trim_chars(&rest);
                        return Ok(Some(string_from_chars(t.as_slice())));
                    }
                    if !rs.as_str().is_char_boundary(ARGS_MAX_BYTES) {
                        return Err(());
                    }
                    let head = chars_of(prefix_bytes_str(rs.as_str(), ARGS_MAX_BYTES));
                    let t = trim_chars(&head);
                    return Ok(Some(string_from_chars(t.as_slice())));
                },
            }
        }
        i = i + 1;
    }
    Ok(None)
}

} // verus!

//! What the language-model spans of a traces export tell: the text of
//! OpenTelemetry values, the size of the chat context, the system prompt
//! and the model calls.

use vstd::prelude::*;
use vstd::view::View as _;
use crate::json::{
    Json, JsonModel, array_in, get, get_in, json_array, json_get, json_str, lemma_as_array_decreases,
    lemma_get_decreases, lemma_models, model, models, or_text, ref_model, str_in,
};
use crate::strings::{byte_len, str_byte_len, str_eq};
use crate::parser::{otel_timestamp, parse_otel_timestamp};

verus! {

/// Texts joined by single spaces, the empty ones left out.
pub open spec fn join_nonempty(ts: Seq<Seq<char>>) -> Seq<char>
    decreases ts.len(),
{
    if ts.len() == 0 {
        Seq::empty()
    } else {
        let j = join_nonempty(ts.drop_last());
        let t = ts.last();
        if t.len() == 0 {
            j
        } else if j.len() == 0 {
            t
        } else {
            j + " "@ + t
        }
    }
}

/// The array under `outer` then "values" is part of `v`.
pub proof fn lemma_nested_array_decreases(v: JsonModel, outer: Seq<char>)
    ensures
        array_in(get_in(get(v, outer), "values"@)) matches Some(a) ==> decreases_to!(v => a),
{
    lemma_get_decreases(v, outer);
    match get(v, outer) {
        Some(x) => {
            lemma_get_decreases(x, "values"@);
            match get(x, "values"@) {
                Some(y) => lemma_as_array_decreases(y),
                None => {},
            }
        },
        None => {},
    }
}

/// All the text of an OpenTelemetry value: a string value itself, and the
/// texts of an array's elements or of a key-value list's values joined by
/// spaces.
pub open spec fn otel_text(v: JsonModel) -> Seq<char>
    decreases v,
{
    match str_in(get(v, "stringValue"@)) {
        Some(s) => s,
        None => match array_in(get_in(get(v, "arrayValue"@), "values"@)) {
            Some(arr) => {
                proof {
                    lemma_nested_array_decreases(v, "arrayValue"@);
                }
                join_nonempty(texts_of(arr))
            },
            None => match array_in(get_in(get(v, "kvlistValue"@), "values"@)) {
                Some(kvs) => {
                    proof {
                        lemma_nested_array_decreases(v, "kvlistValue"@);
                    }
                    join_nonempty(kv_texts(kvs))
                },
                None => Seq::empty(),
            },
        },
    }
}

pub open spec fn texts_of(arr: Seq<JsonModel>) -> Seq<Seq<char>>
    decreases arr,
{
    if arr.len() == 0 {
        Seq::empty()
    } else {
        texts_of(arr.drop_last()).push(otel_text(arr.last()))
    }
}

pub open spec fn kv_texts(kvs: Seq<JsonModel>) -> Seq<Seq<char>>
    decreases kvs,
{
    if kvs.len() == 0 {
        Seq::empty()
    } else {
        let done = kv_texts(kvs.drop_last());
        match get(kvs.last(), "value"@) {
            Some(val) => {
                proof {
                    lemma_get_decreases(kvs.last(), "value"@);
                }
                done.push(otel_text(val))
            },
            None => done,
        }
    }
}

fn append_joined(out: &mut String, t: String)
    ensures
        final(out)@ == (if t@.len() == 0 {
            old(out)@
        } else if old(out)@.len() == 0 {
            t@
        } else {
            old(out)@ + " "@ + t@
        }),
{
    if str_byte_len(t.as_str()) == 0 {
        proof {
            crate::strings::lemma_byte_len_ge_len(t@);
        }
        return;
    }
    proof {
        if t@.len() == 0 {
            assert(t@ =~= Seq::<char>::empty());
            assert(vstd::utf8::encode_utf8(t@) =~= Seq::<u8>::empty());
        }
    }
    if str_byte_len(out.as_str()) == 0 {
        proof {
            crate::strings::lemma_byte_len_ge_len(out@);
        }
        *out = t;
    } else {
        proof {
            if out@.len() == 0 {
                assert(out@ =~= Seq::<char>::empty());
                assert(vstd::utf8::encode_utf8(out@) =~= Seq::<u8>::empty());
            }
        }
        out.append(" ");
        out.append(t.as_str());
    }
}

/// Recursively extract all text from OTEL value structure.
pub fn extract_text_from_otel_value(value: &Json) -> (r: String)
    ensures
        r@ == otel_text(model(*value)),
    decreases model(*value),
{
    let sv = json_get(value, "stringValue");
    let s = match sv {
        Some(x) => json_str(x),
        None => None,
    };
    match s {
        Some(s) => return String::from_str(s),
        None => {},
    }
    let av = json_get(value, "arrayValue");
    let arr = match av {
        Some(x) => {
            let vs = json_get(x, "values");
            match vs {
                Some(y) => json_array(y),
                None => None,
            }
        },
        None => None,
    };
    match arr {
        Some(a) => {
            proof {
                lemma_nested_array_decreases(model(*value), "arrayValue"@);
            }
            return join_texts(a);
        },
        None => {},
    }
    let kv = json_get(value, "kvlistValue");
    let kvs = match kv {
        Some(x) => {
            let vs = json_get(x, "values");
            match vs {
                Some(y) => json_array(y),
                None => None,
            }
        },
        None => None,
    };
    match kvs {
        Some(a) => {
            proof {
                lemma_nested_array_decreases(model(*value), "kvlistValue"@);
            }
            join_kv_texts(a)
        },
        None => String::new(),
    }
}

fn join_texts(arr: &Vec<Json>) -> (r: String)
    ensures
        r@ == join_nonempty(texts_of(models(arr@))),
    decreases models(arr@),
{
    proof {
        lemma_models(arr@);
    }
    let ghost ms = models(arr@);
    let mut out = String::new();
    let mut i: usize = 0;
    assert(ms.take(0) =~= Seq::<JsonModel>::empty());
    while i < arr.len()
        invariant
            0 <= i <= arr.len(),
            ms == models(arr@),
            ms.len() == arr@.len(),
            forall|j: int| 0 <= j < arr@.len() ==> #[trigger] ms[j] == model(arr@[j]),
            out@ == join_nonempty(texts_of(ms.take(i as int))),
        decreases arr.len() - i,
    {
        assert(ms.take(i + 1).drop_last() =~= ms.take(i as int));
        assert(ms.take(i + 1).last() == model(arr@[i as int]));
        proof {
            assert(decreases_to!(ms => ms[i as int]));
        }
        let t = extract_text_from_otel_value(&arr[i]);
        assert(texts_of(ms.take(i + 1)).drop_last() =~= texts_of(ms.take(i as int)));
        append_joined(&mut out, t);
        i = i + 1;
    }
    assert(ms.take(i as int) =~= ms);
    out
}

fn join_kv_texts(kvs: &Vec<Json>) -> (r: String)
    ensures
        r@ == join_nonempty(kv_texts(models(kvs@))),
    decreases models(kvs@),
{
    proof {
        lemma_models(kvs@);
    }
    let ghost ms = models(kvs@);
    let mut out = String::new();
    let mut i: usize = 0;
    assert(ms.take(0) =~= Seq::<JsonModel>::empty());
    while i < kvs.len()
        invariant
            0 <= i <= kvs.len(),
            ms == models(kvs@),
            ms.len() == kvs@.len(),
            forall|j: int| 0 <= j < kvs@.len() ==> #[trigger] ms[j] == model(kvs@[j]),
            out@ == join_nonempty(kv_texts(ms.take(i as int))),
        decreases kvs.len() - i,
    {
        assert(ms.take(i + 1).drop_last() =~= ms.take(i as int));
        assert(ms.take(i + 1).last() == model(kvs@[i as int]));
        let val = json_get(&kvs[i], "value");
        match val {
            Some(v) => {
                proof {
                    assert(decreases_to!(ms => ms[i as int]));
                    lemma_get_decreases(ms[i as int], "value"@);
                }
                let t = extract_text_from_otel_value(v);
                assert(kv_texts(ms.take(i + 1)) == kv_texts(ms.take(i as int)).push(t@));
                assert(kv_texts(ms.take(i + 1)).drop_last() =~= kv_texts(ms.take(i as int)));
                append_joined(&mut out, t);
            },
            None => {
                assert(kv_texts(ms.take(i + 1)) == kv_texts(ms.take(i as int)));
            },
        }
        i = i + 1;
    }
    assert(ms.take(i as int) =~= ms);
    out
}

/// Messages and characters of the fields of one chat item: each "role"
/// field counts a message, each "content" field with a value adds the bytes
/// of its text.
pub open spec fn field_stats(fs: Seq<JsonModel>) -> (nat, nat)
    decreases fs.len(),
{
    if fs.len() == 0 {
        (0, 0)
    } else {
        let (m, c) = field_stats(fs.drop_last());
        let f = fs.last();
        let key = or_text(str_in(get(f, "key"@)), ""@);
        if key == "role"@ {
            (m + 1, c)
        } else if key == "content"@ {
            match get(f, "value"@) {
                Some(val) => (m, c + byte_len(otel_text(val))),
                None => (m, c),
            }
        } else {
            (m, c)
        }
    }
}

/// The fields of a chat item.
pub open spec fn item_fields(item: JsonModel) -> Option<Seq<JsonModel>> {
    array_in(get_in(get(item, "kvlistValue"@), "values"@))
}

pub open spec fn item_stats(items: Seq<JsonModel>) -> (nat, nat)
    decreases items.len(),
{
    if items.len() == 0 {
        (0, 0)
    } else {
        let (m, c) = item_stats(items.drop_last());
        match item_fields(items.last()) {
            Some(fs) => (m + field_stats(fs).0, c + field_stats(fs).1),
            None => (m, c),
        }
    }
}

/// The chat items of an "items" entry of the chat context.
pub open spec fn entry_items(kv: JsonModel) -> Option<Seq<JsonModel>> {
    if str_in(get(kv, "key"@)) == Some("items"@) {
        array_in(get_in(get_in(get(kv, "value"@), "arrayValue"@), "values"@))
    } else {
        None
    }
}

pub open spec fn kv_stats(kvs: Seq<JsonModel>) -> (nat, nat)
    decreases kvs.len(),
{
    if kvs.len() == 0 {
        (0, 0)
    } else {
        let (m, c) = kv_stats(kvs.drop_last());
        match entry_items(kvs.last()) {
            Some(items) => (m + item_stats(items).0, c + item_stats(items).1),
            None => (m, c),
        }
    }
}

/// The number of messages and of content bytes of a chat context value.
pub open spec fn chat_ctx_stats(value: JsonModel) -> (nat, nat) {
    match array_in(get_in(get(value, "kvlistValue"@), "values"@)) {
        Some(kvs) => kv_stats(kvs),
        None => (0, 0),
    }
}

pub proof fn lemma_field_stats_prefix(fs: Seq<JsonModel>, i: int)
    requires
        0 <= i <= fs.len(),
    ensures
        field_stats(fs.take(i)).0 <= field_stats(fs).0,
        field_stats(fs.take(i)).1 <= field_stats(fs).1,
    decreases fs.len(),
{
    if i < fs.len() {
        lemma_field_stats_prefix(fs.drop_last(), i);
        assert(fs.drop_last().take(i) =~= fs.take(i));
    } else {
        assert(fs.take(i) =~= fs);
    }
}

pub proof fn lemma_item_stats_prefix(items: Seq<JsonModel>, i: int)
    requires
        0 <= i <= items.len(),
    ensures
        item_stats(items.take(i)).0 <= item_stats(items).0,
        item_stats(items.take(i)).1 <= item_stats(items).1,
    decreases items.len(),
{
    if i < items.len() {
        lemma_item_stats_prefix(items.drop_last(), i);
        assert(items.drop_last().take(i) =~= items.take(i));
    } else {
        assert(items.take(i) =~= items);
    }
}

pub proof fn lemma_kv_stats_prefix(kvs: Seq<JsonModel>, i: int)
    requires
        0 <= i <= kvs.len(),
    ensures
        kv_stats(kvs.take(i)).0 <= kv_stats(kvs).0,
        kv_stats(kvs.take(i)).1 <= kv_stats(kvs).1,
    decreases kvs.len(),
{
    if i < kvs.len() {
        lemma_kv_stats_prefix(kvs.drop_last(), i);
        assert(kvs.drop_last().take(i) =~= kvs.take(i));
    } else {
        assert(kvs.take(i) =~= kvs);
    }
}

fn array_at<'a>(v: &'a Json, outer: &str, inner: &str) -> (r: Option<&'a Vec<Json>>)
    ensures
        match r {
            Some(a) => array_in(get_in(get(model(*v), outer@), inner@)) == Some(models(a@)),
            None => array_in(get_in(get(model(*v), outer@), inner@)) is None,
        },
{
    let x = json_get(v, outer);
    match x {
        Some(x) => {
            let y = json_get(x, inner);
            match y {
                Some(y) => json_array(y),
                None => None,
            }
        },
        None => None,
    }
}

fn key_is(v: &Json, key: &str) -> (r: bool)
    ensures
        r == (or_text(str_in(get(model(*v), "key"@)), ""@) == key@),
{
    let k = json_get(v, "key");
    let ks = match k {
        Some(x) => json_str(x),
        None => None,
    };
    match ks {
        Some(s) => str_eq(s, key),
        None => str_eq("", key),
    }
}

fn add_field_stats(fields: &Vec<Json>, m: &mut usize, c: &mut usize) -> (ok: bool)
    ensures
        ok ==> *final(m) == *old(m) + field_stats(models(fields@)).0,
        ok ==> *final(c) == *old(c) + field_stats(models(fields@)).1,
        !ok ==> *old(m) + field_stats(models(fields@)).0 > usize::MAX || *old(c) + field_stats(models(fields@)).1
            > usize::MAX,
{
    proof {
        lemma_models(fields@);
    }
    let ghost ms = models(fields@);
    let ghost m0 = *m as int;
    let ghost c0 = *c as int;
    let mut i: usize = 0;
    assert(ms.take(0) =~= Seq::<JsonModel>::empty());
    while i < fields.len()
        invariant
            0 <= i <= fields.len(),
            ms == models(fields@),
            ms.len() == fields@.len(),
            forall|j: int| 0 <= j < fields@.len() ==> #[trigger] ms[j] == model(fields@[j]),
            *m == m0 + field_stats(ms.take(i as int)).0,
            *c == c0 + field_stats(ms.take(i as int)).1,
            m0 == *old(m) as int,
            c0 == *old(c) as int,
        decreases fields.len() - i,
    {
        assert(ms.take(i + 1).drop_last() =~= ms.take(i as int));
        assert(ms.take(i + 1).last() == model(fields@[i as int]));
        proof {
            lemma_field_stats_prefix(ms, i + 1);
        }
        let f = &fields[i];
        if key_is(f, "role") {
            match m.checked_add(1) {
                Some(x) => *m = x,
                None => {
                    assert(field_stats(ms.take(i + 1)).0 == field_stats(ms.take(i as int)).0 + 1);
                    return false;
                },
            }
        } else if key_is(f, "content") {
            let val = json_get(f, "value");
            match val {
                Some(v) => {
                    let t = extract_text_from_otel_value(v);
                    match c.checked_add(str_byte_len(t.as_str())) {
                        Some(x) => *c = x,
                        None => {
                            assert(field_stats(ms.take(i + 1)).1 == field_stats(ms.take(i as int)).1 + byte_len(
                                otel_text(model(*v)),
                            ));
                            return false;
                        },
                    }
                },
                None => {},
            }
        }
        i = i + 1;
    }
    assert(ms.take(i as int) =~= ms);
    true
}

fn add_item_stats(items: &Vec<Json>, m: &mut usize, c: &mut usize) -> (ok: bool)
    ensures
        ok ==> *final(m) == *old(m) + item_stats(models(items@)).0,
        ok ==> *final(c) == *old(c) + item_stats(models(items@)).1,
        !ok ==> *old(m) + item_stats(models(items@)).0 > usize::MAX || *old(c) + item_stats(models(items@)).1
            > usize::MAX,
{
    proof {
        lemma_models(items@);
    }
    let ghost ms = models(items@);
    let ghost m0 = *m as int;
    let ghost c0 = *c as int;
    let mut i: usize = 0;
    assert(ms.take(0) =~= Seq::<JsonModel>::empty());
    while i < items.len()
        invariant
            0 <= i <= items.len(),
            ms == models(items@),
            ms.len() == items@.len(),
            forall|j: int| 0 <= j < items@.len() ==> #[trigger] ms[j] == model(items@[j]),
            *m == m0 + item_stats(ms.take(i as int)).0,
            *c == c0 + item_stats(ms.take(i as int)).1,
            m0 == *old(m) as int,
            c0 == *old(c) as int,
        decreases items.len() - i,
    {
        assert(ms.take(i + 1).drop_last() =~= ms.take(i as int));
        assert(ms.take(i + 1).last() == model(items@[i as int]));
        proof {
            lemma_item_stats_prefix(ms, i + 1);
        }
        let fields = array_at(&items[i], "kvlistValue", "values");
        match fields {
            Some(fs) => {
                if !add_field_stats(fs, m, c) {
                    assert(item_stats(ms.take(i + 1)).0 == item_stats(ms.take(i as int)).0 + field_stats(models(fs@)).0);
                    assert(item_stats(ms.take(i + 1)).1 == item_stats(ms.take(i as int)).1 + field_stats(models(fs@)).1);
                    return false;
                }
            },
            None => {},
        }
        i = i + 1;
    }
    assert(ms.take(i as int) =~= ms);
    true
}

fn add_kv_stats(kvs: &Vec<Json>, m: &mut usize, c: &mut usize) -> (ok: bool)
    ensures
        ok ==> *final(m) == *old(m) + kv_stats(models(kvs@)).0,
        ok ==> *final(c) == *old(c) + kv_stats(models(kvs@)).1,
        !ok ==> *old(m) + kv_stats(models(kvs@)).0 > usize::MAX || *old(c) + kv_stats(models(kvs@)).1
            > usize::MAX,
{
    proof {
        lemma_models(kvs@);
    }
    let ghost ms = models(kvs@);
    let ghost m0 = *m as int;
    let ghost c0 = *c as int;
    let mut i: usize = 0;
    assert(ms.take(0) =~= Seq::<JsonModel>::empty());
    while i < kvs.len()
        invariant
            0 <= i <= kvs.len(),
            ms == models(kvs@),
            ms.len() == kvs@.len(),
            forall|j: int| 0 <= j < kvs@.len() ==> #[trigger] ms[j] == model(kvs@[j]),
            *m == m0 + kv_stats(ms.take(i as int)).0,
            *c == c0 + kv_stats(ms.take(i as int)).1,
            m0 == *old(m) as int,
            c0 == *old(c) as int,
        decreases kvs.len() - i,
    {
        assert(ms.take(i + 1).drop_last() =~= ms.take(i as int));
        assert(ms.take(i + 1).last() == model(kvs@[i as int]));
        proof {
            lemma_kv_stats_prefix(ms, i + 1);
        }
        let kv = &kvs[i];
        let k = json_get(kv, "key");
        let ks = match k {
            Some(x) => json_str(x),
            None => None,
        };
        let is_items = match ks {
            Some(s) => str_eq(s, "items"),
            None => false,
        };
        if is_items {
            let value = json_get(kv, "value");
            let items = match value {
                Some(v) => array_at(v, "arrayValue", "values"),
                None => None,
            };
            match items {
                Some(its) => {
                    if !add_item_stats(its, m, c) {
                        assert(kv_stats(ms.take(i + 1)).0 == kv_stats(ms.take(i as int)).0 + item_stats(models(its@)).0);
                        assert(kv_stats(ms.take(i + 1)).1 == kv_stats(ms.take(i as int)).1 + item_stats(models(its@)).1);
                        return false;
                    }
                },
                None => {},
            }
        }
        i = i + 1;
    }
    assert(ms.take(i as int) =~= ms);
    true
}

/// The size of a chat context, when its counts fit a `usize`.
pub fn chat_ctx_checked(value: &Json) -> (r: Option<(usize, usize)>)
    ensures
        r is Some <==> chat_ctx_stats(model(*value)).0 <= usize::MAX && chat_ctx_stats(model(*value)).1 <= usize::MAX,
        r matches Some(p) ==> p.0 == chat_ctx_stats(model(*value)).0 && p.1 == chat_ctx_stats(model(*value)).1,
{
    let mut m: usize = 0;
    let mut c: usize = 0;
    let kvs = array_at(value, "kvlistValue", "values");
    match kvs {
        Some(kvs) => {
            if add_kv_stats(kvs, &mut m, &mut c) {
                Some((m, c))
            } else {
                None
            }
        },
        None => Some((0, 0)),
    }
}

/// Parse lk.chat_ctx and return (message_count, total_chars).
pub fn parse_llm_chat_ctx(value: &Json) -> (r: (usize, usize))
    requires
        chat_ctx_stats(model(*value)).0 <= usize::MAX,
        chat_ctx_stats(model(*value)).1 <= usize::MAX,
    ensures
        r.0 == chat_ctx_stats(model(*value)).0,
        r.1 == chat_ctx_stats(model(*value)).1,
{
    match chat_ctx_checked(value) {
        Some(p) => p,
        None => (0, 0),
    }
}

/// The role and the content of a chat item: the last "role" field's string
/// value and the text of the last "content" field with a value, each empty
/// when there is none.
pub open spec fn role_content(fs: Seq<JsonModel>) -> (Seq<char>, Seq<char>)
    decreases fs.len(),
{
    if fs.len() == 0 {
        (Seq::empty(), Seq::empty())
    } else {
        let (role, content) = role_content(fs.drop_last());
        let f = fs.last();
        let key = or_text(str_in(get(f, "key"@)), ""@);
        if key == "role"@ {
            (or_text(str_in(get_in(get(f, "value"@), "stringValue"@)), ""@), content)
        } else if key == "content"@ {
            match get(f, "value"@) {
                Some(val) => (role, otel_text(val)),
                None => (role, content),
            }
        } else {
            (role, content)
        }
    }
}

/// The content of a chat item whose role is "system".
pub open spec fn item_system(item: JsonModel) -> Option<Seq<char>> {
    match item_fields(item) {
        Some(fs) => if role_content(fs).0 == "system"@ {
            Some(role_content(fs).1)
        } else {
            None
        },
        None => None,
    }
}

pub open spec fn items_system(items: Seq<JsonModel>) -> Option<Seq<char>>
    decreases items.len(),
{
    if items.len() == 0 {
        None
    } else {
        match item_system(items[0]) {
            Some(c) => Some(c),
            None => items_system(items.drop_first()),
        }
    }
}

pub open spec fn kvs_system(kvs: Seq<JsonModel>) -> Option<Seq<char>>
    decreases kvs.len(),
{
    if kvs.len() == 0 {
        None
    } else {
        match entry_items(kvs[0]) {
            Some(items) => match items_system(items) {
                Some(c) => Some(c),
                None => kvs_system(kvs.drop_first()),
            },
            None => kvs_system(kvs.drop_first()),
        }
    }
}

/// The system message of a chat-context attribute.
pub open spec fn attr_system(attr: JsonModel) -> Option<Seq<char>> {
    if str_in(get(attr, "key"@)) == Some("lk.chat_ctx"@) {
        match array_in(get_in(get_in(get(attr, "value"@), "kvlistValue"@), "values"@)) {
            Some(kvs) => kvs_system(kvs),
            None => None,
        }
    } else {
        None
    }
}

pub open spec fn attrs_system(attrs: Seq<JsonModel>) -> Option<Seq<char>>
    decreases attrs.len(),
{
    if attrs.len() == 0 {
        None
    } else {
        match attr_system(attrs[0]) {
            Some(c) => Some(c),
            None => attrs_system(attrs.drop_first()),
        }
    }
}

/// The system prompt of a language-model span: the content of the first
/// chat item with the system role in its chat context, or empty.
pub open spec fn span_system(span: JsonModel) -> Seq<char> {
    match array_in(get(span, "attributes"@)) {
        Some(attrs) => or_text(attrs_system(attrs), ""@),
        None => Seq::empty(),
    }
}

pub open spec fn is_llm_node(span: JsonModel) -> bool {
    str_in(get(span, "name"@)) == Some("llm_node"@)
}

pub open spec fn first_llm_in_spans(sds: Seq<JsonModel>) -> Option<JsonModel>
    decreases sds.len(),
{
    if sds.len() == 0 {
        None
    } else if is_llm_node(sds[0]) {
        Some(sds[0])
    } else {
        first_llm_in_spans(sds.drop_first())
    }
}

pub open spec fn first_llm_in_scopes(sss: Seq<JsonModel>) -> Option<JsonModel>
    decreases sss.len(),
{
    if sss.len() == 0 {
        None
    } else {
        match array_in(get(sss[0], "spans"@)) {
            Some(sds) => match first_llm_in_spans(sds) {
                Some(sp) => Some(sp),
                None => first_llm_in_scopes(sss.drop_first()),
            },
            None => first_llm_in_scopes(sss.drop_first()),
        }
    }
}

pub open spec fn first_llm_in_resources(rss: Seq<JsonModel>) -> Option<JsonModel>
    decreases rss.len(),
{
    if rss.len() == 0 {
        None
    } else {
        match array_in(get(rss[0], "scopeSpans"@)) {
            Some(sss) => match first_llm_in_scopes(sss) {
                Some(sp) => Some(sp),
                None => first_llm_in_resources(rss.drop_first()),
            },
            None => first_llm_in_resources(rss.drop_first()),
        }
    }
}

/// The system prompt of a traces export: that of its first language-model
/// span, or empty.
pub open spec fn spec_system_prompt(data: JsonModel) -> Seq<char> {
    match array_in(get(data, "resourceSpans"@)) {
        Some(rss) => match first_llm_in_resources(rss) {
            Some(span) => span_system(span),
            None => Seq::empty(),
        },
        None => Seq::empty(),
    }
}

pub open spec fn opt_text(o: Option<String>) -> Option<Seq<char>> {
    match o {
        Some(s) => Some(s@),
        None => None,
    }
}

fn item_system_exec(item: &Json) -> (r: Option<String>)
    ensures
        opt_text(r) == item_system(model(*item)),
{
    let fields = array_at(item, "kvlistValue", "values");
    let fs = match fields {
        Some(fs) => fs,
        None => return None,
    };
    proof {
        lemma_models(fs@);
    }
    let ghost ms = models(fs@);
    let mut role = String::new();
    let mut content = String::new();
    let mut i: usize = 0;
    assert(ms.take(0) =~= Seq::<JsonModel>::empty());
    while i < fs.len()
        invariant
            0 <= i <= fs.len(),
            ms == models(fs@),
            ms.len() == fs@.len(),
            forall|j: int| 0 <= j < fs@.len() ==> #[trigger] ms[j] == model(fs@[j]),
            (role@, content@) == role_content(ms.take(i as int)),
        decreases fs.len() - i,
    {
        assert(ms.take(i + 1).drop_last() =~= ms.take(i as int));
        assert(ms.take(i + 1).last() == model(fs@[i as int]));
        let f = &fs[i];
        if key_is(f, "role") {
            let value = json_get(f, "value");
            let sv = match value {
                Some(v) => {
                    let x = json_get(v, "stringValue");
                    match x {
                        Some(x) => json_str(x),
                        None => None,
                    }
                },
                None => None,
            };
            role = match sv {
                Some(s) => String::from_str(s),
                None => String::from_str(""),
            };
        } else if key_is(f, "content") {
            let value = json_get(f, "value");
            match value {
                Some(v) => {
                    content = extract_text_from_otel_value(v);
                },
                None => {},
            }
        }
        i = i + 1;
    }
    assert(ms.take(i as int) =~= ms);
    if str_eq(role.as_str(), "system") {
        Some(content)
    } else {
        None
    }
}

fn items_system_exec(items: &Vec<Json>) -> (r: Option<String>)
    ensures
        opt_text(r) == items_system(models(items@)),
{
    proof {
        lemma_models(items@);
    }
    let ghost ms = models(items@);
    let mut i: usize = 0;
    assert(ms.skip(0) =~= ms);
    while i < items.len()
        invariant
            0 <= i <= items.len(),
            ms == models(items@),
            ms.len() == items@.len(),
            forall|j: int| 0 <= j < items@.len() ==> #[trigger] ms[j] == model(items@[j]),
            items_system(ms) == items_system(ms.skip(i as int)),
        decreases items.len() - i,
    {
        assert(ms.skip(i as int)[0] == model(items@[i as int]));
        assert(ms.skip(i as int).drop_first() =~= ms.skip(i + 1));
        let r = item_system_exec(&items[i]);
        match r {
            Some(c) => return Some(c),
            None => {},
        }
        i = i + 1;
    }
    assert(ms.skip(i as int) =~= Seq::<JsonModel>::empty());
    None
}

fn kvs_system_exec(kvs: &Vec<Json>) -> (r: Option<String>)
    ensures
        opt_text(r) == kvs_system(models(kvs@)),
{
    proof {
        lemma_models(kvs@);
    }
    let ghost ms = models(kvs@);
    let mut i: usize = 0;
    assert(ms.skip(0) =~= ms);
    while i < kvs.len()
        invariant
            0 <= i <= kvs.len(),
            ms == models(kvs@),
            ms.len() == kvs@.len(),
            forall|j: int| 0 <= j < kvs@.len() ==> #[trigger] ms[j] == model(kvs@[j]),
            kvs_system(ms) == kvs_system(ms.skip(i as int)),
        decreases kvs.len() - i,
    {
        assert(ms.skip(i as int)[0] == model(kvs@[i as int]));
        assert(ms.skip(i as int).drop_first() =~= ms.skip(i + 1));
        let kv = &kvs[i];
        let k = json_get(kv, "key");
        let ks = match k {
            Some(x) => json_str(x),
            None => None,
        };
        let is_items = match ks {
            Some(s) => str_eq(s, "items"),
            None => false,
        };
        if is_items {
            let value = json_get(kv, "value");
            let items = match value {
                Some(v) => array_at(v, "arrayValue", "values"),
                None => None,
            };
            match items {
                Some(its) => {
                    let r = items_system_exec(its);
                    match r {
                        Some(c) => return Some(c),
                        None => {},
                    }
                },
                None => {},
            }
        }
        i = i + 1;
    }
    assert(ms.skip(i as int) =~= Seq::<JsonModel>::empty());
    None
}

fn attr_system_exec(attr: &Json) -> (r: Option<String>)
    ensures
        opt_text(r) == attr_system(model(*attr)),
{
    let k = json_get(attr, "key");
    let ks = match k {
        Some(x) => json_str(x),
        None => None,
    };
    let is_ctx = match ks {
        Some(s) => str_eq(s, "lk.chat_ctx"),
        None => false,
    };
    if !is_ctx {
        return None;
    }
    let value = json_get(attr, "value");
    let kvs = match value {
        Some(v) => array_at(v, "kvlistValue", "values"),
        None => None,
    };
    match kvs {
        Some(kvs) => kvs_system_exec(kvs),
        None => None,
    }
}

fn span_system_exec(span: &Json) -> (r: String)
    ensures
        r@ == span_system(model(*span)),
{
    let av = json_get(span, "attributes");
    let attrs = match av {
        Some(x) => json_array(x),
        None => None,
    };
    let attrs = match attrs {
        Some(a) => a,
        None => return String::new(),
    };
    proof {
        lemma_models(attrs@);
    }
    let ghost ms = models(attrs@);
    let mut i: usize = 0;
    assert(ms.skip(0) =~= ms);
    while i < attrs.len()
        invariant
            0 <= i <= attrs.len(),
            ms == models(attrs@),
            ms.len() == attrs@.len(),
            forall|j: int| 0 <= j < attrs@.len() ==> #[trigger] ms[j] == model(attrs@[j]),
            attrs_system(ms) == attrs_system(ms.skip(i as int)),
            array_in(get(model(*span), "attributes"@)) == Some(ms),
        decreases attrs.len() - i,
    {
        assert(ms.skip(i as int)[0] == model(attrs@[i as int]));
        assert(ms.skip(i as int).drop_first() =~= ms.skip(i + 1));
        let r = attr_system_exec(&attrs[i]);
        match r {
            Some(c) => return c,
            None => {},
        }
        i = i + 1;
    }
    assert(ms.skip(i as int) =~= Seq::<JsonModel>::empty());
    String::from_str("")
}

fn is_llm_node_exec(span: &Json) -> (r: bool)
    ensures
        r == is_llm_node(model(*span)),
{
    let n = json_get(span, "name");
    let ns = match n {
        Some(x) => json_str(x),
        None => None,
    };
    match ns {
        Some(s) => str_eq(s, "llm_node"),
        None => false,
    }
}

fn first_llm_in_spans_exec(sds: &Vec<Json>) -> (r: Option<&Json>)
    ensures
        ref_model(r) == first_llm_in_spans(models(sds@)),
{
    proof {
        lemma_models(sds@);
    }
    let ghost ms = models(sds@);
    let mut i: usize = 0;
    assert(ms.skip(0) =~= ms);
    while i < sds.len()
        invariant
            0 <= i <= sds.len(),
            ms == models(sds@),
            ms.len() == sds@.len(),
            forall|j: int| 0 <= j < sds@.len() ==> #[trigger] ms[j] == model(sds@[j]),
            first_llm_in_spans(ms) == first_llm_in_spans(ms.skip(i as int)),
        decreases sds.len() - i,
    {
        assert(ms.skip(i as int)[0] == model(sds@[i as int]));
        assert(ms.skip(i as int).drop_first() =~= ms.skip(i + 1));
        if is_llm_node_exec(&sds[i]) {
            return Some(&sds[i]);
        }
        i = i + 1;
    }
    assert(ms.skip(i as int) =~= Seq::<JsonModel>::empty());
    None
}

fn first_llm_in_scopes_exec(sss: &Vec<Json>) -> (r: Option<&Json>)
    ensures
        ref_model(r) == first_llm_in_scopes(models(sss@)),
{
    proof {
        lemma_models(sss@);
    }
    let ghost ms = models(sss@);
    let mut i: usize = 0;
    assert(ms.skip(0) =~= ms);
    while i < sss.len()
        invariant
            0 <= i <= sss.len(),
            ms == models(sss@),
            ms.len() == sss@.len(),
            forall|j: int| 0 <= j < sss@.len() ==> #[trigger] ms[j] == model(sss@[j]),
            first_llm_in_scopes(ms) == first_llm_in_scopes(ms.skip(i as int)),
        decreases sss.len() - i,
    {
        assert(ms.skip(i as int)[0] == model(sss@[i as int]));
        assert(ms.skip(i as int).drop_first() =~= ms.skip(i + 1));
        let sv = json_get(&sss[i], "spans");
        let sds = match sv {
            Some(x) => json_array(x),
            None => None,
        };
        match sds {
            Some(sds) => {
                let r = first_llm_in_spans_exec(sds);
                match r {
                    Some(sp) => return Some(sp),
                    None => {},
                }
            },
            None => {},
        }
        i = i + 1;
    }
    assert(ms.skip(i as int) =~= Seq::<JsonModel>::empty());
    None
}

fn first_llm_in_resources_exec(rss: &Vec<Json>) -> (r: Option<&Json>)
    ensures
        ref_model(r) == first_llm_in_resources(models(rss@)),
{
    proof {
        lemma_models(rss@);
    }
    let ghost ms = models(rss@);
    let mut i: usize = 0;
    assert(ms.skip(0) =~= ms);
    while i < rss.len()
        invariant
            0 <= i <= rss.len(),
            ms == models(rss@),
            ms.len() == rss@.len(),
            forall|j: int| 0 <= j < rss@.len() ==> #[trigger] ms[j] == model(rss@[j]),
            first_llm_in_resources(ms) == first_llm_in_resources(ms.skip(i as int)),
        decreases rss.len() - i,
    {
        assert(ms.skip(i as int)[0] == model(rss@[i as int]));
        assert(ms.skip(i as int).drop_first() =~= ms.skip(i + 1));
        let sv = json_get(&rss[i], "scopeSpans");
        let sss = match sv {
            Some(x) => json_array(x),
            None => None,
        };
        match sss {
            Some(sss) => {
                let r = first_llm_in_scopes_exec(sss);
                match r {
                    Some(sp) => return Some(sp),
                    None => {},
                }
            },
            None => {},
        }
        i = i + 1;
    }
    assert(ms.skip(i as int) =~= Seq::<JsonModel>::empty());
    None
}

/// Extract system prompt from the first llm_node span.
pub fn extract_system_prompt(data: &Json) -> (r: String)
    ensures
        r@ == spec_system_prompt(model(*data)),
{
    let rv = json_get(data, "resourceSpans");
    let rss = match rv {
        Some(x) => json_array(x),
        None => None,
    };
    match rss {
        Some(rss) => {
            let first = first_llm_in_resources_exec(rss);
            match first {
                Some(span) => span_system_exec(span),
                None => String::new(),
            }
        },
        None => String::new(),
    }
}

/// The language-model spans among spans, in order.
pub open spec fn spans_llm(sds: Seq<JsonModel>) -> Seq<JsonModel>
    decreases sds.len(),
{
    if sds.len() == 0 {
        Seq::empty()
    } else if is_llm_node(sds.last()) {
        spans_llm(sds.drop_last()).push(sds.last())
    } else {
        spans_llm(sds.drop_last())
    }
}

pub open spec fn scopes_llm(sss: Seq<JsonModel>) -> Seq<JsonModel>
    decreases sss.len(),
{
    if sss.len() == 0 {
        Seq::empty()
    } else {
        match array_in(get(sss.last(), "spans"@)) {
            Some(sds) => scopes_llm(sss.drop_last()) + spans_llm(sds),
            None => scopes_llm(sss.drop_last()),
        }
    }
}

pub open spec fn resources_llm(rss: Seq<JsonModel>) -> Seq<JsonModel>
    decreases rss.len(),
{
    if rss.len() == 0 {
        Seq::empty()
    } else {
        match array_in(get(rss.last(), "scopeSpans"@)) {
            Some(sss) => resources_llm(rss.drop_last()) + scopes_llm(sss),
            None => resources_llm(rss.drop_last()),
        }
    }
}

/// All language-model spans of a traces export, in order.
pub open spec fn all_llm_spans(data: JsonModel) -> Seq<JsonModel> {
    match array_in(get(data, "resourceSpans"@)) {
        Some(rss) => resources_llm(rss),
        None => Seq::empty(),
    }
}

/// What the attributes of a model call tell: the chat context's messages
/// and characters (the last chat-context attribute with a value counts)
/// and the response text (the last response attribute counts).
pub open spec fn call_attrs(attrs: Seq<JsonModel>) -> (nat, nat, Seq<char>)
    decreases attrs.len(),
{
    if attrs.len() == 0 {
        (0, 0, Seq::empty())
    } else {
        let (m, c, r) = call_attrs(attrs.drop_last());
        let a = attrs.last();
        let key = or_text(str_in(get(a, "key"@)), ""@);
        if key == "lk.chat_ctx"@ {
            match get(a, "value"@) {
                Some(v) => (chat_ctx_stats(v).0, chat_ctx_stats(v).1, r),
                None => (m, c, r),
            }
        } else if key == "lk.response.text"@ {
            (m, c, or_text(str_in(get_in(get(a, "value"@), "stringValue"@)), ""@))
        } else {
            (m, c, r)
        }
    }
}

pub open spec fn span_attrs(span: JsonModel) -> Seq<JsonModel> {
    match array_in(get(span, "attributes"@)) {
        Some(a) => a,
        None => Seq::empty(),
    }
}

/// The chat contexts of the attributes have counts that fit a `usize`.
pub open spec fn attrs_fit(attrs: Seq<JsonModel>) -> bool {
    forall|i: int|
        0 <= i < attrs.len() && or_text(str_in(get(#[trigger] attrs[i], "key"@)), ""@) == "lk.chat_ctx"@ && get(
            attrs[i],
            "value"@,
        ) is Some ==> chat_ctx_stats(get(attrs[i], "value"@)->0).0 <= usize::MAX && chat_ctx_stats(
            get(attrs[i], "value"@)->0,
        ).1 <= usize::MAX
}

/// Mathematical form of a language-model call.
pub struct LlmTurnModel {
    pub index: int,
    pub start: int,
    pub end: int,
    pub messages: int,
    pub chars: int,
    pub tokens_est: int,
    pub response: Seq<char>,
    pub response_chars: int,
}

pub open spec fn or_zero(o: Option<int>) -> int {
    match o {
        Some(t) => t,
        None => 0,
    }
}

/// The `index`-th language-model call (from 1): its times (0 when absent),
/// its chat context's size, a token estimate of a quarter of the
/// characters, and its response.
pub open spec fn llm_turn_model(span: JsonModel, index: int) -> LlmTurnModel {
    let (m, c, r) = call_attrs(span_attrs(span));
    LlmTurnModel {
        index,
        start: or_zero(otel_timestamp(get(span, "startTimeUnixNano"@))),
        end: or_zero(otel_timestamp(get(span, "endTimeUnixNano"@))),
        messages: m as int,
        chars: c as int,
        tokens_est: c as int / 4,
        response: r,
        response_chars: byte_len(r) as int,
    }
}

pub open spec fn spec_llm_turns(data: JsonModel) -> Seq<LlmTurnModel> {
    let spans = all_llm_spans(data);
    Seq::new(spans.len(), |k: int| llm_turn_model(spans[k], k + 1))
}

/// A language-model call of the traces: its number (from 1), its start and
/// end in nanoseconds, the size of its chat context and its response.
pub struct LlmTurn {
    pub turn_index: usize,
    pub start_ns: i64,
    pub end_ns: i64,
    pub context_messages: usize,
    pub context_chars: usize,
    pub context_tokens_est: usize,
    pub response_text: String,
    pub response_chars: usize,
}

impl LlmTurn {
    pub open spec fn model(self) -> LlmTurnModel {
        LlmTurnModel {
            index: self.turn_index as int,
            start: self.start_ns as int,
            end: self.end_ns as int,
            messages: self.context_messages as int,
            chars: self.context_chars as int,
            tokens_est: self.context_tokens_est as int,
            response: self.response_text@,
            response_chars: self.response_chars as int,
        }
    }
}

pub open spec fn turn_models(v: Seq<LlmTurn>) -> Seq<LlmTurnModel> {
    v.map_values(|t: LlmTurn| t.model())
}

pub open spec fn ref_models(v: Seq<&Json>) -> Seq<JsonModel> {
    v.map_values(|x: &Json| model(*x))
}

fn push_llm_spans<'a>(sds: &'a Vec<Json>, out: &mut Vec<&'a Json>)
    ensures
        ref_models(final(out)@) == ref_models(old(out)@) + spans_llm(models(sds@)),
{
    proof {
        lemma_models(sds@);
    }
    let ghost start = ref_models(out@);
    let ghost ms = models(sds@);
    let mut i: usize = 0;
    assert(ms.take(0) =~= Seq::<JsonModel>::empty());
    assert(ref_models(out@) =~= start + spans_llm(ms.take(0)));
    while i < sds.len()
        invariant
            0 <= i <= sds.len(),
            ms == models(sds@),
            ms.len() == sds@.len(),
            forall|j: int| 0 <= j < sds@.len() ==> #[trigger] ms[j] == model(sds@[j]),
            ref_models(out@) == start + spans_llm(ms.take(i as int)),
        decreases sds.len() - i,
    {
        assert(ms.take(i + 1).drop_last() =~= ms.take(i as int));
        assert(ms.take(i + 1).last() == model(sds@[i as int]));
        if is_llm_node_exec(&sds[i]) {
            let ghost before = ref_models(out@);
            out.push(&sds[i]);
            assert(ref_models(out@) =~= before.push(model(sds@[i as int])));
        }
        i = i + 1;
    }
    assert(ms.take(i as int) =~= ms);
}

fn push_scope_llm_spans<'a>(sss: &'a Vec<Json>, out: &mut Vec<&'a Json>)
    ensures
        ref_models(final(out)@) == ref_models(old(out)@) + scopes_llm(models(sss@)),
{
    proof {
        lemma_models(sss@);
    }
    let ghost start = ref_models(out@);
    let ghost ms = models(sss@);
    let mut i: usize = 0;
    assert(ms.take(0) =~= Seq::<JsonModel>::empty());
    assert(ref_models(out@) =~= start + scopes_llm(ms.take(0)));
    while i < sss.len()
        invariant
            0 <= i <= sss.len(),
            ms == models(sss@),
            ms.len() == sss@.len(),
            forall|j: int| 0 <= j < sss@.len() ==> #[trigger] ms[j] == model(sss@[j]),
            ref_models(out@) == start + scopes_llm(ms.take(i as int)),
        decreases sss.len() - i,
    {
        assert(ms.take(i + 1).drop_last() =~= ms.take(i as int));
        assert(ms.take(i + 1).last() == model(sss@[i as int]));
        let sv = json_get(&sss[i], "spans");
        let sds = match sv {
            Some(x) => json_array(x),
            None => None,
        };
        match sds {
            Some(sds) => {
                let ghost before = ref_models(out@);
                push_llm_spans(sds, out);
                assert(before + spans_llm(models(sds@)) =~= start + scopes_llm(ms.take(i + 1)));
            },
            None => {},
        }
        i = i + 1;
    }
    assert(ms.take(i as int) =~= ms);
}

/// The language-model spans of a traces export, in order.
pub fn collect_llm_spans(data: &Json) -> (spans: Vec<&Json>)
    ensures
        ref_models(spans@) == all_llm_spans(model(*data)),
{
    let mut out: Vec<&Json> = Vec::new();
    let rv = json_get(data, "resourceSpans");
    let rss = match rv {
        Some(x) => json_array(x),
        None => None,
    };
    let rss = match rss {
        Some(r) => r,
        None => {
            assert(ref_models(out@) =~= Seq::<JsonModel>::empty());
            return out;
        },
    };
    proof {
        lemma_models(rss@);
    }
    let ghost ms = models(rss@);
    let mut i: usize = 0;
    assert(ms.take(0) =~= Seq::<JsonModel>::empty());
    assert(ref_models(out@) =~= resources_llm(ms.take(0)));
    while i < rss.len()
        invariant
            0 <= i <= rss.len(),
            ms == models(rss@),
            ms.len() == rss@.len(),
            forall|j: int| 0 <= j < rss@.len() ==> #[trigger] ms[j] == model(rss@[j]),
            ref_models(out@) == resources_llm(ms.take(i as int)),
        decreases rss.len() - i,
    {
        assert(ms.take(i + 1).drop_last() =~= ms.take(i as int));
        assert(ms.take(i + 1).last() == model(rss@[i as int]));
        let sv = json_get(&rss[i], "scopeSpans");
        let sss = match sv {
            Some(x) => json_array(x),
            None => None,
        };
        match sss {
            Some(sss) => {
                push_scope_llm_spans(sss, &mut out);
            },
            None => {},
        }
        i = i + 1;
    }
    assert(ms.take(i as int) =~= ms);
    out
}

/// One language-model call from its span and number; none when the counts
/// of one of its chat contexts do not fit a `usize`.
pub fn llm_turn(span: &Json, turn_index: usize) -> (r: Option<LlmTurn>)
    ensures
        r is Some <==> attrs_fit(span_attrs(model(*span))),
        r matches Some(t) ==> t.model() == llm_turn_model(model(*span), turn_index as int),
{
    let sv = json_get(span, "startTimeUnixNano");
    let st = parse_otel_timestamp(sv);
    let start_ns = match st {
        Some(t) => t,
        None => 0,
    };
    let ev = json_get(span, "endTimeUnixNano");
    let et = parse_otel_timestamp(ev);
    let end_ns = match et {
        Some(t) => t,
        None => 0,
    };
    let mut messages: usize = 0;
    let mut chars: usize = 0;
    let mut response = String::from_str("");
    proof {
        reveal_strlit("");
    }
    assert(response@ =~= Seq::<char>::empty());
    let av = json_get(span, "attributes");
    let attrs = match av {
        Some(x) => json_array(x),
        None => None,
    };
    let ghost all = span_attrs(model(*span));
    match attrs {
        Some(attrs) => {
            proof {
                lemma_models(attrs@);
            }
            let ghost ms = models(attrs@);
            assert(ms == all);
            let mut i: usize = 0;
            assert(ms.take(0) =~= Seq::<JsonModel>::empty());
            while i < attrs.len()
                invariant
                    0 <= i <= attrs.len(),
                    ms == models(attrs@),
                    ms.len() == attrs@.len(),
                    forall|j: int| 0 <= j < attrs@.len() ==> #[trigger] ms[j] == model(attrs@[j]),
                    attrs_fit(ms.take(i as int)),
                    ms == all,
                    all == span_attrs(model(*span)),
                    (messages as nat, chars as nat, response@) == call_attrs(ms.take(i as int)),
                decreases attrs.len() - i,
            {
                assert(ms.take(i + 1).drop_last() =~= ms.take(i as int));
                assert(ms.take(i + 1).last() == model(attrs@[i as int]));
                let a = &attrs[i];
                assert(ms[i as int] == model(*a));
                if key_is(a, "lk.chat_ctx") {
                    let value = json_get(a, "value");
                    match value {
                        Some(v) => {
                            match chat_ctx_checked(v) {
                                Some((m, c)) => {
                                    messages = m;
                                    chars = c;
                                },
                                None => {
                                    assert(!attrs_fit(ms)) by {
                                        assert(ms[i as int] == model(*a));
                                    }
                                    return None;
                                },
                            }
                        },
                        None => {},
                    }
                } else if key_is(a, "lk.response.text") {
                    let value = json_get(a, "value");
                    let sv = match value {
                        Some(v) => {
                            let x = json_get(v, "stringValue");
                            match x {
                                Some(x) => json_str(x),
                                None => None,
                            }
                        },
                        None => None,
                    };
                    response = match sv {
                        Some(s) => String::from_str(s),
                        None => String::from_str(""),
                    };
                }
                assert(attrs_fit(ms.take(i + 1))) by {
                    assert forall|j: int| 0 <= j < i + 1 implies #[trigger] ms.take(i + 1)[j] == ms[j] by {}
                }
                i = i + 1;
            }
            assert(ms.take(i as int) =~= ms);
        },
        None => {
            assert(all =~= Seq::<JsonModel>::empty());
            assert(attrs_fit(all));
            assert(call_attrs(all) == (0nat, 0nat, Seq::<char>::empty()));
            proof {
                reveal_strlit("");
            }
        },
    }
    let response_chars = str_byte_len(response.as_str());
    Some(
        LlmTurn {
            turn_index,
            start_ns,
            end_ns,
            context_messages: messages,
            context_chars: chars,
            context_tokens_est: chars / 4,
            response_text: response,
            response_chars,
        },
    )
}

/// Every language-model span's chat contexts have counts that fit a
/// `usize`, and there are fewer such spans than the largest `usize`.
pub open spec fn llm_turns_fit(data: JsonModel) -> bool {
    &&& all_llm_spans(data).len() < usize::MAX
    &&& forall|k: int| 0 <= k < all_llm_spans(data).len() ==> attrs_fit(span_attrs(#[trigger] all_llm_spans(data)[k]))
}

/// Extract LLM context info from llm_node spans in traces.
pub fn parse_llm_turns_from_traces(data: &Json) -> (turns: Vec<LlmTurn>)
    requires
        llm_turns_fit(model(*data)),
    ensures
        turn_models(turns@) == spec_llm_turns(model(*data)),
{
    let spans = collect_llm_spans(data);
    let ghost sm = all_llm_spans(model(*data));
    let mut turns: Vec<LlmTurn> = Vec::new();
    let mut k: usize = 0;
    while k < spans.len()
        invariant
            0 <= k <= spans.len(),
            ref_models(spans@) == sm,
            sm == all_llm_spans(model(*data)),
            llm_turns_fit(model(*data)),
            turns@.len() == k,
            forall|q: int| 0 <= q < k ==> #[trigger] turns@[q].model() == llm_turn_model(sm[q], q + 1),
        decreases spans.len() - k,
    {
        assert(sm[k as int] == model(*spans@[k as int]));
        assert(attrs_fit(span_attrs(sm[k as int])));
        match llm_turn(spans[k], k + 1) {
            Some(t) => turns.push(t),
            None => {},
        }
        k = k + 1;
    }
    assert(turn_models(turns@) =~= spec_llm_turns(model(*data)));
    turns
}

/// The language-model calls of the traces, as `parse_llm_turns_from_traces`
/// gives them, when their counts fit a `usize`; none otherwise.
pub fn parse_llm_turns_checked(data: &Json) -> (r: Option<Vec<LlmTurn>>)
    ensures
        r is Some <==> llm_turns_fit(model(*data)),
        r matches Some(turns) ==> turn_models(turns@) == spec_llm_turns(model(*data)),
{
    let spans = collect_llm_spans(data);
    let ghost sm = all_llm_spans(model(*data));
    assert(ref_models(spans@) == sm);
    assert(ref_models(spans@).len() == spans@.len());
    if spans.len() == usize::MAX {
        return None;
    }
    let mut turns: Vec<LlmTurn> = Vec::new();
    let mut k: usize = 0;
    while k < spans.len()
        invariant
            0 <= k <= spans.len(),
            spans.len() < usize::MAX,
            ref_models(spans@) == sm,
            sm == all_llm_spans(model(*data)),
            turns@.len() == k,
            forall|q: int| 0 <= q < k ==> #[trigger] turns@[q].model() == llm_turn_model(sm[q], q + 1),
            forall|q: int| 0 <= q < k ==> attrs_fit(span_attrs(#[trigger] sm[q])),
        decreases spans.len() - k,
    {
        assert(sm[k as int] == model(*spans@[k as int]));
        match llm_turn(spans[k], k + 1) {
            Some(t) => turns.push(t),
            None => {
                return None;
            },
        }
        k = k + 1;
    }
    assert(turn_models(turns@) =~= spec_llm_turns(model(*data)));
    Some(turns)
}

} // verus!

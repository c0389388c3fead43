//! A JSON document as the parsers read it, and its mathematical model.

use vstd::prelude::*;
use vstd::view::View as _;
use crate::strings::str_eq;

verus! {

/// A JSON number: its value when it is an integer that fits an `i64` or a
/// `u64` (what `as_i64` and `as_u64` give), and its text, which reads back
/// as the number.
#[derive(Debug)]
pub struct JsonNumber {
    pub int: Option<i64>,
    pub uint: Option<u64>,
    pub text: String,
}

/// A JSON value. The entries of an object have distinct keys; their order
/// carries no meaning.
#[derive(Debug)]
pub enum Json {
    Null,
    Bool(bool),
    Number(JsonNumber),
    Str(String),
    Array(Vec<Json>),
    Object(Vec<(String, Json)>),
}

/// Mathematical form of a JSON value.
pub enum JsonModel {
    Null,
    Bool(bool),
    Number(Option<int>, Option<int>, Seq<char>),
    Str(Seq<char>),
    Array(Seq<JsonModel>),
    Object(Seq<(Seq<char>, JsonModel)>),
}

pub open spec fn number_model(n: JsonNumber) -> JsonModel {
    JsonModel::Number(
        match n.int {
            Some(i) => Some(i as int),
            None => None,
        },
        match n.uint {
            Some(u) => Some(u as int),
            None => None,
        },
        n.text@,
    )
}

pub open spec fn model(v: Json) -> JsonModel
    decreases v,
{
    match v {
        Json::Null => JsonModel::Null,
        Json::Bool(b) => JsonModel::Bool(b),
        Json::Number(n) => number_model(n),
        Json::Str(s) => JsonModel::Str(s@),
        Json::Array(a) => {
            proof {
                assert(decreases_to!(v => a));
                assert(decreases_to!(a => a@));
            }
            JsonModel::Array(models(a@))
        },
        Json::Object(o) => {
            proof {
                assert(decreases_to!(v => o));
                assert(decreases_to!(o => o@));
            }
            JsonModel::Object(entry_models(o@))
        },
    }
}

pub open spec fn models(s: Seq<Json>) -> Seq<JsonModel>
    decreases s,
{
    if s.len() == 0 {
        Seq::empty()
    } else {
        models(s.drop_last()).push(model(s.last()))
    }
}

pub open spec fn entry_models(s: Seq<(String, Json)>) -> Seq<(Seq<char>, JsonModel)>
    decreases s,
{
    if s.len() == 0 {
        Seq::empty()
    } else {
        proof {
            assert(decreases_to!(s => s.last()));
            assert(decreases_to!(s.last() => s.last().1));
        }
        entry_models(s.drop_last()).push((s.last().0@, model(s.last().1)))
    }
}

pub proof fn lemma_models(s: Seq<Json>)
    ensures
        models(s).len() == s.len(),
        forall|i: int| 0 <= i < s.len() ==> #[trigger] models(s)[i] == model(s[i]),
    decreases s.len(),
{
    if s.len() > 0 {
        lemma_models(s.drop_last());
        assert forall|i: int| 0 <= i < s.len() implies #[trigger] models(s)[i] == model(s[i]) by {
            if i < s.len() - 1 {
                assert(s.drop_last()[i] == s[i]);
            }
        }
    }
}

pub proof fn lemma_entry_models(s: Seq<(String, Json)>)
    ensures
        entry_models(s).len() == s.len(),
        forall|i: int| 0 <= i < s.len() ==> #[trigger] entry_models(s)[i] == (s[i].0@, model(s[i].1)),
    decreases s.len(),
{
    if s.len() > 0 {
        lemma_entry_models(s.drop_last());
        assert forall|i: int| 0 <= i < s.len() implies #[trigger] entry_models(s)[i] == (s[i].0@, model(s[i].1)) by {
            if i < s.len() - 1 {
                assert(s.drop_last()[i] == s[i]);
            }
        }
    }
}

/// Index of the first entry at or after `i` with key `key`.
pub open spec fn entry_index(es: Seq<(Seq<char>, JsonModel)>, key: Seq<char>, i: int) -> Option<int>
    decreases es.len() - i,
{
    if i < 0 || i >= es.len() {
        None
    } else if es[i].0 == key {
        Some(i)
    } else {
        entry_index(es, key, i + 1)
    }
}

pub proof fn lemma_entry_index(es: Seq<(Seq<char>, JsonModel)>, key: Seq<char>, i: int)
    requires
        0 <= i,
    ensures
        match entry_index(es, key, i) {
            Some(x) => i <= x < es.len() && es[x].0 == key && forall|j: int| i <= j < x ==> es[j].0 != key,
            None => forall|j: int| i <= j < es.len() ==> es[j].0 != key,
        },
    decreases es.len() - i,
{
    if i < es.len() && es[i].0 != key {
        lemma_entry_index(es, key, i + 1);
    }
}

/// The value of the entry with key `key` of an object (`Value::get`).
pub open spec fn get(v: JsonModel, key: Seq<char>) -> Option<JsonModel> {
    match v {
        JsonModel::Object(es) => match entry_index(es, key, 0) {
            Some(i) => Some(es[i].1),
            None => None,
        },
        _ => None,
    }
}

/// The value an entry gives is part of the object.
pub proof fn lemma_get_decreases(v: JsonModel, key: Seq<char>)
    ensures
        get(v, key) matches Some(x) ==> decreases_to!(v => x),
{
    match v {
        JsonModel::Object(es) => {
            lemma_entry_index(es, key, 0);
            match entry_index(es, key, 0) {
                Some(i) => {
                    assert(decreases_to!(v => es));
                    assert(decreases_to!(es => es[i]));
                    assert(decreases_to!(es[i] => es[i].1));
                },
                None => {},
            }
        },
        _ => {},
    }
}

pub open spec fn get_in(o: Option<JsonModel>, key: Seq<char>) -> Option<JsonModel> {
    match o {
        Some(v) => get(v, key),
        None => None,
    }
}

pub open spec fn as_str(v: JsonModel) -> Option<Seq<char>> {
    match v {
        JsonModel::Str(s) => Some(s),
        _ => None,
    }
}

pub open spec fn str_in(o: Option<JsonModel>) -> Option<Seq<char>> {
    match o {
        Some(v) => as_str(v),
        None => None,
    }
}

pub open spec fn as_array(v: JsonModel) -> Option<Seq<JsonModel>> {
    match v {
        JsonModel::Array(a) => Some(a),
        _ => None,
    }
}

pub open spec fn array_in(o: Option<JsonModel>) -> Option<Seq<JsonModel>> {
    match o {
        Some(v) => as_array(v),
        None => None,
    }
}

pub open spec fn as_bool(v: JsonModel) -> Option<bool> {
    match v {
        JsonModel::Bool(b) => Some(b),
        _ => None,
    }
}

pub open spec fn as_i64(v: JsonModel) -> Option<int> {
    match v {
        JsonModel::Number(i, _, _) => i,
        _ => None,
    }
}

pub open spec fn or_text(o: Option<Seq<char>>, d: Seq<char>) -> Seq<char> {
    match o {
        Some(s) => s,
        None => d,
    }
}

pub open spec fn ref_model(r: Option<&Json>) -> Option<JsonModel> {
    match r {
        Some(x) => Some(model(*x)),
        None => None,
    }
}

/// The value of an object's entry (`Value::get` with a key).
pub fn json_get<'a>(v: &'a Json, key: &str) -> (r: Option<&'a Json>)
    ensures
        ref_model(r) == get(model(*v), key@),
{
    match v {
        Json::Object(o) => {
            proof {
                lemma_entry_models(o@);
                reveal_with_fuel(model, 1);
                assert(model(*v) == JsonModel::Object(entry_models(o@)));
            }
            let ghost es = entry_models(o@);
            let mut i: usize = 0;
            while i < o.len()
                invariant
                    0 <= i <= o.len(),
                    es == entry_models(o@),
                    model(*v) == JsonModel::Object(es),
                    es.len() == o@.len(),
                    forall|j: int| 0 <= j < o@.len() ==> #[trigger] es[j] == (o@[j].0@, model(o@[j].1)),
                    entry_index(es, key@, 0) == entry_index(es, key@, i as int),
                decreases o.len() - i,
            {
                assert(es[i as int] == (o@[i as int].0@, model(o@[i as int].1)));
                if str_eq(o[i].0.as_str(), key) {
                    assert(entry_index(es, key@, i as int) == Some(i as int));
                    return Some(&o[i].1);
                }
                i = i + 1;
            }
            None
        },
        _ => None,
    }
}

/// The text of a string value (`Value::as_str`).
pub fn json_str(v: &Json) -> (r: Option<&str>)
    ensures
        match r {
            Some(s) => as_str(model(*v)) == Some(s@),
            None => as_str(model(*v)) is None,
        },
{
    match v {
        Json::Str(s) => Some(s.as_str()),
        _ => None,
    }
}

/// The elements of an array value (`Value::as_array`).
pub fn json_array(v: &Json) -> (r: Option<&Vec<Json>>)
    ensures
        match r {
            Some(a) => as_array(model(*v)) == Some(models(a@)),
            None => as_array(model(*v)) is None,
        },
{
    match v {
        Json::Array(a) => Some(a),
        _ => None,
    }
}

/// The value of a boolean (`Value::as_bool`).
pub fn json_bool(v: &Json) -> (r: Option<bool>)
    ensures
        r == as_bool(model(*v)),
{
    match v {
        Json::Bool(b) => Some(*b),
        _ => None,
    }
}

/// The value of an integer that fits an `i64` (`Value::as_i64`).
pub fn json_i64(v: &Json) -> (r: Option<i64>)
    ensures
        match r {
            Some(i) => as_i64(model(*v)) == Some(i as int),
            None => as_i64(model(*v)) is None,
        },
{
    match v {
        Json::Number(n) => n.int,
        _ => None,
    }
}

/// An array's elements are part of it.
pub proof fn lemma_as_array_decreases(v: JsonModel)
    ensures
        as_array(v) matches Some(a) ==> decreases_to!(v => a),
{
    match v {
        JsonModel::Array(a) => {
            assert(decreases_to!(v => a));
        },
        _ => {},
    }
}

/// `es` with the entry of key `k` set to `v`: replaced in place when the
/// key is there, added at the end otherwise (what inserting into a map
/// does).
pub open spec fn entries_insert(es: Seq<(Seq<char>, JsonModel)>, k: Seq<char>, v: JsonModel) -> Seq<(Seq<char>, JsonModel)> {
    match entry_index(es, k, 0) {
        Some(i) => es.update(i, (k, v)),
        None => es.push((k, v)),
    }
}

/// Set the entry of key `k` to `v`.
pub fn insert_entry(entries: &mut Vec<(String, Json)>, k: String, v: Json)
    ensures
        entry_models(final(entries)@) == entries_insert(entry_models(old(entries)@), k@, model(v)),
{
    proof {
        lemma_entry_models(entries@);
    }
    let ghost es = entry_models(entries@);
    let ghost orig = entries@;
    assert(orig == old(entries)@);
    let mut i: usize = 0;
    while i < entries.len()
        invariant
            0 <= i <= entries.len(),
            es == entry_models(entries@),
            entries@ == orig,
            orig == old(entries)@,
            es.len() == entries@.len(),
            forall|j: int| 0 <= j < entries@.len() ==> #[trigger] es[j] == (entries@[j].0@, model(entries@[j].1)),
            entry_index(es, k@, 0) == entry_index(es, k@, i as int),
        decreases entries.len() - i,
    {
        assert(es[i as int] == (entries@[i as int].0@, model(entries@[i as int].1)));
        if str_eq(entries[i].0.as_str(), k.as_str()) {
            assert(entry_index(es, k@, i as int) == Some(i as int));
            let ghost old_entries = entries@;
            let ghost km = (k@, model(v));
            entries.set(i, (k, v));
            proof {
                lemma_entry_models(entries@);
                assert(entry_models(entries@) =~= es.update(i as int, km)) by {
                    assert forall|j: int| 0 <= j < entries@.len() implies entry_models(entries@)[j] == es.update(i as int, km)[j] by {
                        if j != i {
                            assert(entries@[j] == old_entries[j]);
                        }
                    }
                }
            }
            return;
        }
        i = i + 1;
    }
    let ghost km = (k@, model(v));
    entries.push((k, v));
    proof {
        lemma_entry_models(entries@);
        assert(entry_models(entries@) =~= es.push(km));
    }
}

/// An object's entries are part of it.
proof fn lemma_object_decreases(v: JsonModel)
    ensures
        v matches JsonModel::Object(es) ==> decreases_to!(v => es),
{
    match v {
        JsonModel::Object(es) => {
            assert(decreases_to!(v => es));
        },
        _ => {},
    }
}

/// A copy of a JSON value.
pub fn copy_json(v: &Json) -> (r: Json)
    ensures
        model(r) == model(*v),
    decreases model(*v),
{
    match v {
        Json::Null => Json::Null,
        Json::Bool(b) => Json::Bool(*b),
        Json::Number(n) => Json::Number(JsonNumber { int: n.int, uint: n.uint, text: n.text.clone() }),
        Json::Str(s) => Json::Str(s.clone()),
        Json::Array(a) => {
            proof {
                lemma_models(a@);
            }
            let ghost ms = models(a@);
            assert(model(*v) == JsonModel::Array(ms));
            let mut out: Vec<Json> = Vec::new();
            let mut i: usize = 0;
            proof {
                lemma_models(out@);
            }
            assert(models(out@) =~= ms.take(0));
            while i < a.len()
                invariant
                    0 <= i <= a.len(),
                    ms == models(a@),
                    ms.len() == a@.len(),
                    forall|j: int| 0 <= j < a@.len() ==> #[trigger] ms[j] == model(a@[j]),
                    models(out@) == ms.take(i as int),
                    model(*v) == JsonModel::Array(ms),
                decreases a.len() - i,
            {
                proof {
                    lemma_as_array_decreases(model(*v));
                    assert(decreases_to!(ms => ms[i as int]));
                }
                let item = copy_json(&a[i]);
                let ghost before = out@;
                out.push(item);
                proof {
                    lemma_models(out@);
                    lemma_models(before);
                    assert(models(out@) =~= ms.take(i + 1));
                }
                i = i + 1;
            }
            assert(ms.take(i as int) =~= ms);
            Json::Array(out)
        },
        Json::Object(o) => {
            proof {
                lemma_entry_models(o@);
            }
            let ghost es = entry_models(o@);
            assert(model(*v) == JsonModel::Object(es));
            let mut out: Vec<(String, Json)> = Vec::new();
            let mut i: usize = 0;
            proof {
                lemma_entry_models(out@);
            }
            assert(entry_models(out@) =~= es.take(0));
            while i < o.len()
                invariant
                    0 <= i <= o.len(),
                    es == entry_models(o@),
                    es.len() == o@.len(),
                    forall|j: int| 0 <= j < o@.len() ==> #[trigger] es[j] == (o@[j].0@, model(o@[j].1)),
                    entry_models(out@) == es.take(i as int),
                    model(*v) == JsonModel::Object(es),
                decreases o.len() - i,
            {
                proof {
                    lemma_object_decreases(model(*v));
                    assert(decreases_to!(es => es[i as int]));
                    assert(decreases_to!(es[i as int] => es[i as int].1));
                }
                let item = copy_json(&o[i].1);
                let key = o[i].0.clone();
                let ghost before = out@;
                out.push((key, item));
                proof {
                    lemma_entry_models(out@);
                    lemma_entry_models(before);
                    assert(entry_models(out@) =~= es.take(i + 1));
                }
                i = i + 1;
            }
            assert(es.take(i as int) =~= es);
            Json::Object(out)
        },
    }
}

} // verus!

verus! {

/// The JSON document a text holds, read as `serde_json::from_str` reads a
/// `serde_json::Value` (object entries ordered by key), or none where the
/// text is not one JSON document.
pub uninterp spec fn json_text_parse(text: Seq<char>) -> Option<JsonModel>;

#[verifier::external_type_specification]
#[verifier::external_body]
pub struct ExJsonValue(serde_json::Value);

/// A `serde_json::Value` in the library's form, variant for variant: a
/// number keeps `as_i64`, `as_u64` and its text, an object its entries in
/// the map's order. This is the conversion of `parse_json_text`'s result,
/// and claims nothing itself.
#[verifier::external_body]
fn json_of_value(v: &serde_json::Value) -> Json {
    match v {
        serde_json::Value::Null => Json::Null,
        serde_json::Value::Bool(b) => Json::Bool(*b),
        serde_json::Value::Number(n) => Json::Number(JsonNumber { int: n.as_i64(), uint: n.as_u64(), text: n.to_string() }),
        serde_json::Value::String(s) => Json::Str(s.clone()),
        serde_json::Value::Array(a) => Json::Array(a.iter().map(json_of_value).collect()),
        serde_json::Value::Object(o) => Json::Object(o.iter().map(|(k, x)| (k.clone(), json_of_value(x))).collect()),
    }
}

/// `serde_json::from_str::<serde_json::Value>` on a text, converted to the
/// library's JSON value: the document `json_text_parse` names, or none
/// exactly where the text does not parse.
#[verifier::external_body]
pub(crate) fn parse_json_text(text: &str) -> (r: Option<Json>)
    ensures
        match r {
            Some(j) => json_text_parse(text@) == Some(model(j)),
            None => json_text_parse(text@) is None,
        },
{
    match serde_json::from_str::<serde_json::Value>(text) {
        Ok(v) => Some(json_of_value(&v)),
        Err(_) => None,
    }
}

} // verus!

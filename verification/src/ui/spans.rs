//! Attribute values of the spans view, shown as compact text.

use vstd::prelude::*;
use vstd::view::View as _;
use crate::json::{Json, JsonModel, lemma_entry_models, lemma_models, entry_models, model, models};

verus! {

/// A value as the spans view shows it: strings without quotes, numbers as
/// written, `true`, `false` and `null`, arrays as "[a, b]" and objects as
/// "{k: v, ...}" in entry order.
pub open spec fn fmt_value(v: JsonModel) -> Seq<char>
    decreases v,
{
    match v {
        JsonModel::Null => "null"@,
        JsonModel::Bool(b) => if b { "true"@ } else { "false"@ },
        JsonModel::Number(_, _, t) => t,
        JsonModel::Str(s) => s,
        JsonModel::Array(a) => {
            proof {
                assert(decreases_to!(v => a));
            }
            "["@ + fmt_items(a) + "]"@
        },
        JsonModel::Object(es) => {
            proof {
                assert(decreases_to!(v => es));
            }
            "{"@ + fmt_entries(es) + "}"@
        },
    }
}

/// The elements' texts joined with ", ".
pub open spec fn fmt_items(a: Seq<JsonModel>) -> Seq<char>
    decreases a,
{
    if a.len() == 0 {
        Seq::empty()
    } else {
        proof {
            assert(decreases_to!(a => a.drop_last()));
            assert(decreases_to!(a => a.last()));
        }
        let last = fmt_value(a.last());
        if a.len() == 1 {
            last
        } else {
            fmt_items(a.drop_last()) + ", "@ + last
        }
    }
}

/// The entries' "key: value" texts joined with ", ".
pub open spec fn fmt_entries(es: Seq<(Seq<char>, JsonModel)>) -> Seq<char>
    decreases es,
{
    if es.len() == 0 {
        Seq::empty()
    } else {
        proof {
            assert(decreases_to!(es => es.drop_last()));
            assert(decreases_to!(es => es.last()));
            assert(decreases_to!(es.last() => es.last().1));
        }
        let last = es.last().0 + ": "@ + fmt_value(es.last().1);
        if es.len() == 1 {
            last
        } else {
            fmt_entries(es.drop_last()) + ", "@ + last
        }
    }
}

proof fn lemma_array_decreases(v: JsonModel)
    ensures
        v matches JsonModel::Array(a) ==> decreases_to!(v => a),
        v matches JsonModel::Object(es) ==> decreases_to!(v => es),
{
    match v {
        JsonModel::Array(a) => {
            assert(decreases_to!(v => a));
        },
        JsonModel::Object(es) => {
            assert(decreases_to!(v => es));
        },
        _ => {},
    }
}

/// Format a JSON value for display.
pub fn format_json_value(v: &Json) -> (r: String)
    ensures
        r@ == fmt_value(model(*v)),
    decreases model(*v),
{
    match v {
        Json::Null => String::from_str("null"),
        Json::Bool(b) => if *b { String::from_str("true") } else { String::from_str("false") },
        Json::Number(n) => n.text.clone(),
        Json::Str(s) => s.clone(),
        Json::Array(a) => {
            proof {
                lemma_models(a@);
                lemma_array_decreases(model(*v));
            }
            let ghost ms = models(a@);
            assert(model(*v) == JsonModel::Array(ms));
            let mut out = String::from_str("[");
            let mut i: usize = 0;
            assert(ms.take(0) =~= Seq::<JsonModel>::empty());
            while i < a.len()
                invariant
                    0 <= i <= a.len(),
                    ms == models(a@),
                    ms.len() == a@.len(),
                    forall|j: int| 0 <= j < a@.len() ==> #[trigger] ms[j] == model(a@[j]),
                    model(*v) == JsonModel::Array(ms),
                    decreases_to!(model(*v) => ms),
                    out@ == "["@ + fmt_items(ms.take(i as int)),
                decreases a.len() - i,
            {
                proof {
                    assert(decreases_to!(ms => ms[i as int]));
                }
                let item = format_json_value(&a[i]);
                assert(ms.take(i + 1).drop_last() =~= ms.take(i as int));
                assert(ms.take(i + 1).last() == model(a@[i as int]));
                if i > 0 {
                    out.append(", ");
                }
                out.append(item.as_str());
                proof {
                    if i == 0 {
                        assert(fmt_items(ms.take(1)) == fmt_value(ms[0]));
                    }
                }
                assert(out@ =~= "["@ + fmt_items(ms.take(i + 1)));
                i = i + 1;
            }
            assert(ms.take(i as int) =~= ms);
            out.append("]");
            out
        },
        Json::Object(o) => {
            proof {
                lemma_entry_models(o@);
                lemma_array_decreases(model(*v));
            }
            let ghost es = entry_models(o@);
            assert(model(*v) == JsonModel::Object(es));
            let mut out = String::from_str("{");
            let mut i: usize = 0;
            assert(es.take(0) =~= Seq::<(Seq<char>, JsonModel)>::empty());
            while i < o.len()
                invariant
                    0 <= i <= o.len(),
                    es == entry_models(o@),
                    es.len() == o@.len(),
                    forall|j: int| 0 <= j < o@.len() ==> #[trigger] es[j] == (o@[j].0@, model(o@[j].1)),
                    model(*v) == JsonModel::Object(es),
                    decreases_to!(model(*v) => es),
                    out@ == "{"@ + fmt_entries(es.take(i as int)),
                decreases o.len() - i,
            {
                proof {
                    assert(decreases_to!(es => es[i as int]));
                    assert(decreases_to!(es[i as int] => es[i as int].1));
                }
                let item = format_json_value(&o[i].1);
                assert(es.take(i + 1).drop_last() =~= es.take(i as int));
                assert(es.take(i + 1).last() == es[i as int]);
                if i > 0 {
                    out.append(", ");
                }
                out.append(o[i].0.as_str());
                out.append(": ");
                out.append(item.as_str());
                proof {
                    if i == 0 {
                        assert(fmt_entries(es.take(1)) == es[0].0 + ": "@ + fmt_value(es[0].1));
                    }
                }
                assert(out@ =~= "{"@ + fmt_entries(es.take(i + 1)));
                i = i + 1;
            }
            assert(es.take(i as int) =~= es);
            out.append("}");
            out
        },
    }
}

} // verus!

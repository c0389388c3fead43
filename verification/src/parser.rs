//! Reading the OpenTelemetry exports (logs and traces) of a call.

use vstd::prelude::*;
use vstd::view::View as _;
use crate::data::{ConversationTurn, LogEntry, Span};
use crate::json::{
    Json, JsonModel, JsonNumber, array_in, as_array, as_bool, entries_insert, entry_models, get, get_in,
    copy_json, entry_index, insert_entry, json_array, json_bool, json_get, json_i64, json_str, lemma_as_array_decreases,
    lemma_entry_models, lemma_get_decreases, lemma_models, model, models, or_text, ref_model, str_in,
};
use crate::strings::{i64_to_text, int_text, parse_i64, spec_parse_i64, str_eq};

verus! {

/// Mathematical form of a log record.
pub struct LogModel {
    pub ts: int,
    pub severity: Seq<char>,
    pub message: Seq<char>,
    pub logger: Seq<char>,
}

pub open spec fn log_model(l: LogEntry) -> LogModel {
    LogModel { ts: l.timestamp_ns as int, severity: l.severity@, message: l.message@, logger: l.logger_name@ }
}

pub open spec fn log_models(v: Seq<LogEntry>) -> Seq<LogModel> {
    v.map_values(|l: LogEntry| log_model(l))
}

/// A timestamp in nanoseconds: a decimal string or an integer.
pub open spec fn otel_timestamp(o: Option<JsonModel>) -> Option<int> {
    match o {
        Some(JsonModel::Str(s)) => spec_parse_i64(s),
        Some(JsonModel::Number(i, _, _)) => i,
        _ => None,
    }
}

/// Read a timestamp in nanoseconds.
pub fn parse_otel_timestamp(value: Option<&Json>) -> (r: Option<i64>)
    ensures
        match r {
            Some(t) => otel_timestamp(ref_model(value)) == Some(t as int),
            None => otel_timestamp(ref_model(value)) is None,
        },
{
    match value {
        Some(v) => {
            match json_str(v) {
                Some(s) => return parse_i64(s),
                None => {},
            }
            json_i64(v)
        },
        None => None,
    }
}

/// A log record: its time (required), its severity ("INFO" when absent)
/// and its message ("" when absent).
pub open spec fn spec_log_record(record: JsonModel, logger: Seq<char>) -> Option<LogModel> {
    match otel_timestamp(get(record, "timeUnixNano"@)) {
        None => None,
        Some(ts) => Some(
            LogModel {
                ts,
                severity: or_text(str_in(get(record, "severityText"@)), "INFO"@),
                message: or_text(str_in(get_in(get(record, "body"@), "stringValue"@)), ""@),
                logger,
            },
        ),
    }
}

fn text_or(o: Option<&str>, d: &str) -> (r: String)
    ensures
        r@ == or_text(
            match o {
                Some(s) => Some(s@),
                None => None,
            },
            d@,
        ),
{
    match o {
        Some(s) => String::from_str(s),
        None => String::from_str(d),
    }
}

fn get_str<'a>(v: &'a Json, key: &str) -> (r: Option<&'a str>)
    ensures
        match r {
            Some(s) => str_in(get(model(*v), key@)) == Some(s@),
            None => str_in(get(model(*v), key@)) is None,
        },
{
    match json_get(v, key) {
        Some(x) => json_str(x),
        None => None,
    }
}

/// Parse one log record.
pub fn parse_log_record(record: &Json, logger_name: &str) -> (r: Option<LogEntry>)
    ensures
        match r {
            Some(l) => spec_log_record(model(*record), logger_name@) == Some(log_model(l)),
            None => spec_log_record(model(*record), logger_name@) is None,
        },
{
    let tv = json_get(record, "timeUnixNano");
    let ts = parse_otel_timestamp(tv);
    let timestamp_ns = match ts {
        Some(t) => t,
        None => return None,
    };
    let sev = get_str(record, "severityText");
    let severity = text_or(sev, "INFO");
    let body = json_get(record, "body");
    let message = match body {
        Some(b) => {
            let sv = get_str(b, "stringValue");
            text_or(sv, "")
        },
        None => String::from_str(""),
    };
    assert(message@ == or_text(str_in(get_in(get(model(*record), "body"@), "stringValue"@)), ""@));
    Some(LogEntry { timestamp_ns, severity, message, logger_name: String::from_str(logger_name) })
}

/// The records of one scope that parse, in order.
pub open spec fn records_logs(rs: Seq<JsonModel>, logger: Seq<char>) -> Seq<LogModel>
    decreases rs.len(),
{
    if rs.len() == 0 {
        Seq::empty()
    } else {
        let done = records_logs(rs.drop_last(), logger);
        match spec_log_record(rs.last(), logger) {
            Some(l) => done.push(l),
            None => done,
        }
    }
}

/// The logger of a scope: its scope's name, "unknown" when absent.
pub open spec fn scope_logger(sl: JsonModel) -> Seq<char> {
    or_text(str_in(get_in(get(sl, "scope"@), "name"@)), "unknown"@)
}

pub open spec fn scopes_logs(sls: Seq<JsonModel>) -> Seq<LogModel>
    decreases sls.len(),
{
    if sls.len() == 0 {
        Seq::empty()
    } else {
        let done = scopes_logs(sls.drop_last());
        match array_in(get(sls.last(), "logRecords"@)) {
            Some(rs) => done + records_logs(rs, scope_logger(sls.last())),
            None => done,
        }
    }
}

pub open spec fn resources_logs(rls: Seq<JsonModel>) -> Seq<LogModel>
    decreases rls.len(),
{
    if rls.len() == 0 {
        Seq::empty()
    } else {
        let done = resources_logs(rls.drop_last());
        match array_in(get(rls.last(), "scopeLogs"@)) {
            Some(sls) => done + scopes_logs(sls),
            None => done,
        }
    }
}

/// Position at which a record with time `t` goes in a list ordered by
/// time: after every record with a time not after `t`.
pub open spec fn log_insert_pos(s: Seq<LogModel>, t: int) -> int
    decreases s.len(),
{
    if s.len() == 0 {
        0
    } else if s[0].ts <= t {
        1 + log_insert_pos(s.drop_first(), t)
    } else {
        0
    }
}

/// The records ordered by time; records with equal times keep their order.
pub open spec fn sort_logs(s: Seq<LogModel>) -> Seq<LogModel>
    decreases s.len(),
{
    if s.len() == 0 {
        Seq::empty()
    } else {
        let sorted = sort_logs(s.drop_last());
        sorted.insert(log_insert_pos(sorted, s.last().ts), s.last())
    }
}

/// The log records of a logs export, ordered by time.
pub open spec fn spec_parse_logs(data: JsonModel) -> Seq<LogModel> {
    match array_in(get(data, "resourceLogs"@)) {
        Some(rls) => sort_logs(resources_logs(rls)),
        None => Seq::empty(),
    }
}

fn collect_records(records: &Vec<Json>, logger: &str, out: &mut Vec<LogEntry>)
    ensures
        log_models(final(out)@) == log_models(old(out)@) + records_logs(models(records@), logger@),
{
    proof {
        lemma_models(records@);
    }
    let ghost start = log_models(out@);
    let ghost ms = models(records@);
    let mut i: usize = 0;
    assert(ms.take(0) =~= Seq::<JsonModel>::empty());
    assert(log_models(out@) =~= start + records_logs(ms.take(0), logger@));
    while i < records.len()
        invariant
            0 <= i <= records.len(),
            ms == models(records@),
            ms.len() == records@.len(),
            forall|j: int| 0 <= j < records@.len() ==> #[trigger] ms[j] == model(records@[j]),
            log_models(out@) == start + records_logs(ms.take(i as int), logger@),
        decreases records.len() - i,
    {
        assert(ms.take(i + 1).drop_last() =~= ms.take(i as int));
        assert(ms.take(i + 1).last() == model(records@[i as int]));
        let r = parse_log_record(&records[i], logger);
        match r {
            Some(l) => {
                let ghost before = log_models(out@);
                out.push(l);
                assert(log_models(out@) =~= before.push(log_model(out@.last())));
            },
            None => {},
        }
        i = i + 1;
    }
    assert(ms.take(i as int) =~= ms);
}

fn collect_scopes(scopes: &Vec<Json>, out: &mut Vec<LogEntry>)
    ensures
        log_models(final(out)@) == log_models(old(out)@) + scopes_logs(models(scopes@)),
{
    proof {
        lemma_models(scopes@);
    }
    let ghost start = log_models(out@);
    let ghost ms = models(scopes@);
    let mut i: usize = 0;
    assert(ms.take(0) =~= Seq::<JsonModel>::empty());
    assert(log_models(out@) =~= start + scopes_logs(ms.take(0)));
    while i < scopes.len()
        invariant
            0 <= i <= scopes.len(),
            ms == models(scopes@),
            ms.len() == scopes@.len(),
            forall|j: int| 0 <= j < scopes@.len() ==> #[trigger] ms[j] == model(scopes@[j]),
            log_models(out@) == start + scopes_logs(ms.take(i as int)),
        decreases scopes.len() - i,
    {
        assert(ms.take(i + 1).drop_last() =~= ms.take(i as int));
        assert(ms.take(i + 1).last() == model(scopes@[i as int]));
        let sl = &scopes[i];
        let logger = match json_get(sl, "scope") {
            Some(sc) => text_or(get_str(sc, "name"), "unknown"),
            None => String::from_str("unknown"),
        };
        let records = match json_get(sl, "logRecords") {
            Some(x) => json_array(x),
            None => None,
        };
        match records {
            Some(rs) => {
                let ghost before = log_models(out@);
                collect_records(rs, logger.as_str(), out);
                assert(before + records_logs(models(rs@), logger@) =~= start + scopes_logs(ms.take(i + 1)));
            },
            None => {},
        }
        i = i + 1;
    }
    assert(ms.take(i as int) =~= ms);
}

fn collect_resources(resources: &Vec<Json>, out: &mut Vec<LogEntry>)
    ensures
        log_models(final(out)@) == log_models(old(out)@) + resources_logs(models(resources@)),
{
    proof {
        lemma_models(resources@);
    }
    let ghost start = log_models(out@);
    let ghost ms = models(resources@);
    let mut i: usize = 0;
    assert(ms.take(0) =~= Seq::<JsonModel>::empty());
    assert(log_models(out@) =~= start + resources_logs(ms.take(0)));
    while i < resources.len()
        invariant
            0 <= i <= resources.len(),
            ms == models(resources@),
            ms.len() == resources@.len(),
            forall|j: int| 0 <= j < resources@.len() ==> #[trigger] ms[j] == model(resources@[j]),
            log_models(out@) == start + resources_logs(ms.take(i as int)),
        decreases resources.len() - i,
    {
        assert(ms.take(i + 1).drop_last() =~= ms.take(i as int));
        assert(ms.take(i + 1).last() == model(resources@[i as int]));
        let scopes = match json_get(&resources[i], "scopeLogs") {
            Some(x) => json_array(x),
            None => None,
        };
        match scopes {
            Some(sls) => {
                let ghost before = log_models(out@);
                collect_scopes(sls, out);
                assert(before + scopes_logs(models(sls@)) =~= start + resources_logs(ms.take(i + 1)));
            },
            None => {},
        }
        i = i + 1;
    }
    assert(ms.take(i as int) =~= ms);
}

/// Order log records by time, keeping the order of records with equal
/// times.
pub fn sort_logs_by_time(logs: Vec<LogEntry>) -> (sorted: Vec<LogEntry>)
    ensures
        log_models(sorted@) == sort_logs(log_models(logs@)),
{
    let ghost all = log_models(logs@);
    let mut rest = logs;
    let mut sorted: Vec<LogEntry> = Vec::new();
    let ghost mut k: int = 0;
    assert(all.take(0) =~= Seq::<LogModel>::empty());
    assert(log_models(sorted@) =~= Seq::<LogModel>::empty());
    assert(log_models(rest@) =~= all.skip(0));
    while rest.len() > 0
        invariant
            0 <= k <= all.len(),
            log_models(rest@) == all.skip(k),
            log_models(sorted@) == sort_logs(all.take(k)),
        decreases rest.len(),
    {
        let ghost rb = rest@;
        let e = rest.remove(0);
        let ghost sm = log_models(sorted@);
        proof {
            assert(rb.len() > 0);
            assert(log_models(rb) == all.skip(k));
            assert(all.skip(k).len() == all.len() - k);
            assert(k < all.len());
            assert(log_models(rb)[0] == log_model(e));
            assert(all.skip(k)[0] == all[k]);
            assert(all[k] == log_model(e));
            assert forall|q: int| 0 <= q < rest@.len() implies log_models(rest@)[q] == all.skip(k + 1)[q] by {
                assert(rest@[q] == rb[q + 1]);
                assert(log_models(rb)[q + 1] == all.skip(k)[q + 1]);
            }
            assert(log_models(rest@) =~= all.skip(k + 1));
            assert(all.take(k + 1).drop_last() =~= all.take(k));
            assert(all.take(k + 1).last() == all[k]);
        }
        let t = e.timestamp_ns;
        let mut p: usize = 0;
        assert(sm.skip(0) =~= sm);
        while p < sorted.len() && sorted[p].timestamp_ns <= t
            invariant
                0 <= p <= sorted@.len(),
                sm == log_models(sorted@),
                log_insert_pos(sm, t as int) == p + log_insert_pos(sm.skip(p as int), t as int),
            decreases sorted@.len() - p,
        {
            assert(sm[p as int] == log_model(sorted@[p as int]));
            assert(sm.skip(p as int)[0] == sm[p as int]);
            assert(sm.skip(p as int).drop_first() =~= sm.skip(p + 1));
            p = p + 1;
        }
        proof {
            if p < sorted@.len() {
                assert(sm[p as int] == log_model(sorted@[p as int]));
                assert(sm.skip(p as int)[0] == sm[p as int]);
            }
            assert(log_insert_pos(sm.skip(p as int), t as int) == 0);
        }
        let ghost before = sorted@;
        sorted.insert(p, e);
        proof {
            assert(log_models(sorted@) =~= sm.insert(p as int, all[k])) by {
                assert forall|q: int| 0 <= q < sorted@.len() implies log_models(sorted@)[q] == sm.insert(p as int, all[k])[q] by {
                    if q < p {
                        assert(sorted@[q] == before[q]);
                    } else if q > p {
                        assert(sorted@[q] == before[q - 1]);
                    }
                }
            }
            k = k + 1;
        }
    }
    assert(all.skip(k).len() == 0);
    assert(all.take(k) =~= all);
    sorted
}

/// Parse logs.json (OpenTelemetry format) into LogEntry objects, ordered by
/// time.
pub fn parse_logs(data: &Json) -> (logs: Vec<LogEntry>)
    ensures
        log_models(logs@) == spec_parse_logs(model(*data)),
{
    let mut logs: Vec<LogEntry> = Vec::new();
    let resources = match json_get(data, "resourceLogs") {
        Some(x) => json_array(x),
        None => None,
    };
    match resources {
        Some(rls) => {
            assert(log_models(logs@) =~= Seq::<LogModel>::empty());
            collect_resources(rls, &mut logs);
            assert(log_models(logs@) =~= resources_logs(models(rls@)));
            sort_logs_by_time(logs)
        },
        None => {
            assert(log_models(logs@) =~= Seq::<LogModel>::empty());
            logs
        },
    }
}

/// The JSON number of an integer.
pub open spec fn int_number(n: int) -> JsonModel {
    JsonModel::Number(Some(n), if n >= 0 { Some(n) } else { None }, int_text(n))
}

/// An OpenTelemetry value as plain JSON: a string, an integer (given as a
/// decimal string or a number), a double, a boolean, a key-value list (an
/// object) or an array; anything else is null.
pub open spec fn otel_value(v: JsonModel) -> JsonModel
    decreases v,
{
    if str_in(get(v, "stringValue"@)) is Some {
        JsonModel::Str(str_in(get(v, "stringValue"@))->0)
    } else if (get(v, "intValue"@) matches Some(JsonModel::Str(s)) && spec_parse_i64(s) is Some) {
        int_number(spec_parse_i64(get(v, "intValue"@)->0->Str_0)->0)
    } else if (get(v, "intValue"@) matches Some(JsonModel::Number(Some(n), _, _))) {
        int_number(get(v, "intValue"@)->0->Number_0->0)
    } else if (get(v, "doubleValue"@) matches Some(JsonModel::Number(_, _, t))) {
        JsonModel::Number(None, None, get(v, "doubleValue"@)->0->Number_2)
    } else if (get(v, "boolValue"@) matches Some(JsonModel::Bool(b))) {
        JsonModel::Bool(get(v, "boolValue"@)->0->Bool_0)
    } else if get(v, "kvlistValue"@) is Some {
        proof {
            lemma_get_decreases(v, "kvlistValue"@);
        }
        kvlist_value(get(v, "kvlistValue"@)->0)
    } else if get(v, "arrayValue"@) is Some {
        proof {
            lemma_get_decreases(v, "arrayValue"@);
        }
        array_value(get(v, "arrayValue"@)->0)
    } else {
        JsonModel::Null
    }
}

/// A key-value list: the entries of its "values" with a string key and a
/// value, later keys replacing earlier equal ones.
pub open spec fn kvlist_value(kv: JsonModel) -> JsonModel
    decreases kv,
{
    match array_in(get(kv, "values"@)) {
        Some(items) => {
            proof {
                lemma_get_decreases(kv, "values"@);
                lemma_as_array_decreases(get(kv, "values"@)->0);
            }
            JsonModel::Object(kv_entries(items))
        },
        None => JsonModel::Object(Seq::empty()),
    }
}

pub open spec fn kv_entries(items: Seq<JsonModel>) -> Seq<(Seq<char>, JsonModel)>
    decreases items,
{
    if items.len() == 0 {
        Seq::empty()
    } else {
        let done = kv_entries(items.drop_last());
        let item = items.last();
        match str_in(get(item, "key"@)) {
            Some(k) => match get(item, "value"@) {
                Some(val) => {
                    proof {
                        lemma_get_decreases(item, "value"@);
                    }
                    entries_insert(done, k, otel_value(val))
                },
                None => done,
            },
            None => done,
        }
    }
}

/// An array: its "values", each as plain JSON.
pub open spec fn array_value(arr: JsonModel) -> JsonModel
    decreases arr,
{
    match array_in(get(arr, "values"@)) {
        Some(vs) => {
            proof {
                lemma_get_decreases(arr, "values"@);
                lemma_as_array_decreases(get(arr, "values"@)->0);
            }
            JsonModel::Array(values_map(vs))
        },
        None => JsonModel::Array(Seq::empty()),
    }
}

pub open spec fn values_map(vs: Seq<JsonModel>) -> Seq<JsonModel>
    decreases vs,
{
    if vs.len() == 0 {
        Seq::empty()
    } else {
        values_map(vs.drop_last()).push(otel_value(vs.last()))
    }
}

fn int_json(n: i64) -> (r: Json)
    ensures
        model(r) == int_number(n as int),
{
    let uint: Option<u64> = if n >= 0 { Some(n as u64) } else { None };
    Json::Number(JsonNumber { int: Some(n), uint, text: i64_to_text(n) })
}

/// Parse OTEL value types (stringValue, intValue, doubleValue, kvlistValue,
/// arrayValue).
pub fn parse_otel_value(value: &Json) -> (r: Json)
    ensures
        model(r) == otel_value(model(*value)),
    decreases model(*value),
{
    let sv = json_get(value, "stringValue");
    match sv {
        Some(x) => {
            let st = json_str(x);
            match st {
                Some(s) => return Json::Str(String::from_str(s)),
                None => {},
            }
        },
        None => {},
    }
    let iv = json_get(value, "intValue");
    match iv {
        Some(x) => {
            let st = json_str(x);
            match st {
                Some(s) => {
                    let parsed = parse_i64(s);
                    match parsed {
                        Some(n) => return int_json(n),
                        None => {},
                    }
                },
                None => {},
            }
            let ni = json_i64(x);
            match ni {
                Some(n) => return int_json(n),
                None => {},
            }
        },
        None => {},
    }
    let dv = json_get(value, "doubleValue");
    match dv {
        Some(Json::Number(n)) => {
            return Json::Number(JsonNumber { int: None, uint: None, text: n.text.clone() });
        },
        _ => {},
    }
    let bv = json_get(value, "boolValue");
    match bv {
        Some(x) => {
            let b = json_bool(x);
            match b {
                Some(b) => return Json::Bool(b),
                None => {},
            }
        },
        None => {},
    }
    let kv = json_get(value, "kvlistValue");
    match kv {
        Some(x) => {
            proof {
                lemma_get_decreases(model(*value), "kvlistValue"@);
            }
            return parse_kvlist_value(x);
        },
        None => {},
    }
    let av = json_get(value, "arrayValue");
    match av {
        Some(x) => {
            proof {
                lemma_get_decreases(model(*value), "arrayValue"@);
            }
            return parse_array_value(x);
        },
        None => {},
    }
    Json::Null
}

/// The entries of key-value items: string keys with their values as plain
/// JSON, later keys replacing earlier equal ones.
pub fn collect_kv_entries(items: &Vec<Json>) -> (entries: Vec<(String, Json)>)
    ensures
        entry_models(entries@) == kv_entries(models(items@)),
    decreases models(items@),
{
    proof {
        lemma_models(items@);
    }
    let ghost ms = models(items@);
    let mut entries: Vec<(String, Json)> = Vec::new();
    let mut i: usize = 0;
    assert(ms.take(0) =~= Seq::<JsonModel>::empty());
    assert(entry_models(entries@) =~= Seq::<(Seq<char>, JsonModel)>::empty());
    while i < items.len()
        invariant
            0 <= i <= items.len(),
            ms == models(items@),
            ms.len() == items@.len(),
            forall|j: int| 0 <= j < items@.len() ==> #[trigger] ms[j] == model(items@[j]),
            entry_models(entries@) == kv_entries(ms.take(i as int)),
        decreases items.len() - i,
    {
        assert(ms.take(i + 1).drop_last() =~= ms.take(i as int));
        assert(ms.take(i + 1).last() == model(items@[i as int]));
        let item = &items[i];
        let key = match json_get(item, "key") {
            Some(x) => json_str(x),
            None => None,
        };
        match key {
            Some(k) => {
                let val = json_get(item, "value");
                match val {
                    Some(v) => {
                        proof {
                            lemma_get_decreases(model(*item), "value"@);
                            assert(decreases_to!(ms => ms[i as int]));
                        }
                        let parsed = parse_otel_value(v);
                        insert_entry(&mut entries, String::from_str(k), parsed);
                    },
                    None => {},
                }
            },
            None => {},
        }
        i = i + 1;
    }
    assert(ms.take(i as int) =~= ms);
    entries
}

/// A key-value list as a JSON object.
pub fn parse_kvlist_value(kv: &Json) -> (r: Json)
    ensures
        model(r) == kvlist_value(model(*kv)),
    decreases model(*kv),
{
    let values = json_get(kv, "values");
    let arr = match values {
        Some(x) => json_array(x),
        None => None,
    };
    match arr {
        Some(items) => {
            proof {
                lemma_get_decreases(model(*kv), "values"@);
                lemma_as_array_decreases(get(model(*kv), "values"@)->0);
            }
            let entries = collect_kv_entries(items);
            proof {
                lemma_entry_models(entries@);
            }
            Json::Object(entries)
        },
        None => {
            let entries: Vec<(String, Json)> = Vec::new();
            assert(entry_models(entries@) =~= Seq::<(Seq<char>, JsonModel)>::empty());
            Json::Object(entries)
        },
    }
}

/// An array value as a JSON array.
pub fn parse_array_value(arr: &Json) -> (r: Json)
    ensures
        model(r) == array_value(model(*arr)),
    decreases model(*arr),
{
    let values = json_get(arr, "values");
    let a = match values {
        Some(x) => json_array(x),
        None => None,
    };
    let mut out: Vec<Json> = Vec::new();
    match a {
        Some(vs) => {
            proof {
                lemma_get_decreases(model(*arr), "values"@);
                lemma_as_array_decreases(get(model(*arr), "values"@)->0);
                lemma_models(vs@);
            }
            let ghost ms = models(vs@);
            let mut i: usize = 0;
            assert(ms.take(0) =~= Seq::<JsonModel>::empty());
            proof {
                lemma_models(out@);
            }
            assert(models(out@) =~= values_map(ms.take(0)));
            while i < vs.len()
                invariant
                    0 <= i <= vs.len(),
                    ms == models(vs@),
                    ms.len() == vs@.len(),
                    forall|j: int| 0 <= j < vs@.len() ==> #[trigger] ms[j] == model(vs@[j]),
                    models(out@) == values_map(ms.take(i as int)),
                    decreases_to!(model(*arr) => ms),
                decreases vs.len() - i,
            {
                assert(ms.take(i + 1).drop_last() =~= ms.take(i as int));
                assert(ms.take(i + 1).last() == model(vs@[i as int]));
                proof {
                    assert(decreases_to!(ms => ms[i as int]));
                }
                let item = parse_otel_value(&vs[i]);
                let ghost before = out@;
                out.push(item);
                proof {
                    lemma_models(out@);
                    lemma_models(before);
                    assert(models(out@) =~= models(before).push(model(out@.last())));
                }
                i = i + 1;
            }
            assert(ms.take(i as int) =~= ms);
            proof {
                lemma_models(out@);
            }
            Json::Array(out)
        },
        None => {
            assert(models(out@) =~= Seq::<JsonModel>::empty());
            Json::Array(out)
        },
    }
}

/// The attributes of a span: the entries of its attribute list with a
/// string key and a value, later keys replacing earlier equal ones.
pub open spec fn otel_attributes(o: Option<JsonModel>) -> Seq<(Seq<char>, JsonModel)> {
    match array_in(o) {
        Some(items) => kv_entries(items),
        None => Seq::empty(),
    }
}

/// Parse a span's attribute list.
pub fn parse_otel_attributes(attrs: Option<&Json>) -> (r: Vec<(String, Json)>)
    ensures
        entry_models(r@) == otel_attributes(ref_model(attrs)),
{
    let arr = match attrs {
        Some(x) => json_array(x),
        None => None,
    };
    match arr {
        Some(items) => collect_kv_entries(items),
        None => {
            let r: Vec<(String, Json)> = Vec::new();
            assert(entry_models(r@) =~= Seq::<(Seq<char>, JsonModel)>::empty());
            r
        },
    }
}

/// Mathematical form of a span.
pub struct SpanModel {
    pub id: Seq<char>,
    pub parent: Option<Seq<char>>,
    pub name: Seq<char>,
    pub start: int,
    pub end: int,
    pub attrs: Seq<(Seq<char>, JsonModel)>,
}

pub open spec fn span_model(s: Span) -> SpanModel {
    SpanModel {
        id: s.span_id@,
        parent: match s.parent_span_id {
            Some(p) => Some(p@),
            None => None,
        },
        name: s.name@,
        start: s.start_time_ns as int,
        end: s.end_time_ns as int,
        attrs: entry_models(s.attributes@),
    }
}

pub open spec fn span_models(v: Seq<Span>) -> Seq<SpanModel> {
    v.map_values(|s: Span| span_model(s))
}

/// A span: its id, name and both times are required; its parent and
/// attributes are optional.
pub open spec fn spec_span(sd: JsonModel) -> Option<SpanModel> {
    match (
        str_in(get(sd, "spanId"@)),
        str_in(get(sd, "name"@)),
        otel_timestamp(get(sd, "startTimeUnixNano"@)),
        otel_timestamp(get(sd, "endTimeUnixNano"@)),
    ) {
        (Some(id), Some(name), Some(start), Some(end)) => Some(
            SpanModel {
                id,
                parent: str_in(get(sd, "parentSpanId"@)),
                name,
                start,
                end,
                attrs: otel_attributes(get(sd, "attributes"@)),
            },
        ),
        _ => None,
    }
}

/// Parse one span.
pub fn parse_span(span_data: &Json) -> (r: Option<Span>)
    ensures
        match r {
            Some(s) => spec_span(model(*span_data)) == Some(span_model(s)),
            None => spec_span(model(*span_data)) is None,
        },
{
    let id = get_str(span_data, "spanId");
    let span_id = match id {
        Some(s) => String::from_str(s),
        None => return None,
    };
    let parent = get_str(span_data, "parentSpanId");
    let parent_span_id = match parent {
        Some(p) => Some(String::from_str(p)),
        None => None,
    };
    let nm = get_str(span_data, "name");
    let name = match nm {
        Some(s) => String::from_str(s),
        None => return None,
    };
    let sv = json_get(span_data, "startTimeUnixNano");
    let st = parse_otel_timestamp(sv);
    let start_time_ns = match st {
        Some(t) => t,
        None => return None,
    };
    let ev = json_get(span_data, "endTimeUnixNano");
    let et = parse_otel_timestamp(ev);
    let end_time_ns = match et {
        Some(t) => t,
        None => return None,
    };
    let av = json_get(span_data, "attributes");
    let attributes = parse_otel_attributes(av);
    Some(Span { span_id, parent_span_id, name, start_time_ns, end_time_ns, attributes })
}

pub open spec fn spans_of(sds: Seq<JsonModel>) -> Seq<SpanModel>
    decreases sds.len(),
{
    if sds.len() == 0 {
        Seq::empty()
    } else {
        let done = spans_of(sds.drop_last());
        match spec_span(sds.last()) {
            Some(s) => done.push(s),
            None => done,
        }
    }
}

pub open spec fn scopes_spans(sss: Seq<JsonModel>) -> Seq<SpanModel>
    decreases sss.len(),
{
    if sss.len() == 0 {
        Seq::empty()
    } else {
        let done = scopes_spans(sss.drop_last());
        match array_in(get(sss.last(), "spans"@)) {
            Some(sds) => done + spans_of(sds),
            None => done,
        }
    }
}

pub open spec fn resources_spans(rss: Seq<JsonModel>) -> Seq<SpanModel>
    decreases rss.len(),
{
    if rss.len() == 0 {
        Seq::empty()
    } else {
        let done = resources_spans(rss.drop_last());
        match array_in(get(rss.last(), "scopeSpans"@)) {
            Some(sss) => done + scopes_spans(sss),
            None => done,
        }
    }
}

/// Position at which a span starting at `t` goes in a list ordered by
/// start: after every span starting not after `t`.
pub open spec fn span_insert_pos(s: Seq<SpanModel>, t: int) -> int
    decreases s.len(),
{
    if s.len() == 0 {
        0
    } else if s[0].start <= t {
        1 + span_insert_pos(s.drop_first(), t)
    } else {
        0
    }
}

/// The spans ordered by start; spans with equal starts keep their order.
pub open spec fn sort_spans(s: Seq<SpanModel>) -> Seq<SpanModel>
    decreases s.len(),
{
    if s.len() == 0 {
        Seq::empty()
    } else {
        let sorted = sort_spans(s.drop_last());
        sorted.insert(span_insert_pos(sorted, s.last().start), s.last())
    }
}

/// The spans of a traces export, ordered by start.
pub open spec fn spec_parse_traces(data: JsonModel) -> Seq<SpanModel> {
    match array_in(get(data, "resourceSpans"@)) {
        Some(rss) => sort_spans(resources_spans(rss)),
        None => Seq::empty(),
    }
}

fn collect_spans(sds: &Vec<Json>, out: &mut Vec<Span>)
    ensures
        span_models(final(out)@) == span_models(old(out)@) + spans_of(models(sds@)),
{
    proof {
        lemma_models(sds@);
    }
    let ghost start = span_models(out@);
    let ghost ms = models(sds@);
    let mut i: usize = 0;
    assert(ms.take(0) =~= Seq::<JsonModel>::empty());
    assert(span_models(out@) =~= start + spans_of(ms.take(0)));
    while i < sds.len()
        invariant
            0 <= i <= sds.len(),
            ms == models(sds@),
            ms.len() == sds@.len(),
            forall|j: int| 0 <= j < sds@.len() ==> #[trigger] ms[j] == model(sds@[j]),
            span_models(out@) == start + spans_of(ms.take(i as int)),
        decreases sds.len() - i,
    {
        assert(ms.take(i + 1).drop_last() =~= ms.take(i as int));
        assert(ms.take(i + 1).last() == model(sds@[i as int]));
        let r = parse_span(&sds[i]);
        match r {
            Some(sp) => {
                let ghost before = span_models(out@);
                out.push(sp);
                assert(span_models(out@) =~= before.push(span_model(out@.last())));
            },
            None => {},
        }
        i = i + 1;
    }
    assert(ms.take(i as int) =~= ms);
}

fn collect_scope_spans(sss: &Vec<Json>, out: &mut Vec<Span>)
    ensures
        span_models(final(out)@) == span_models(old(out)@) + scopes_spans(models(sss@)),
{
    proof {
        lemma_models(sss@);
    }
    let ghost start = span_models(out@);
    let ghost ms = models(sss@);
    let mut i: usize = 0;
    assert(ms.take(0) =~= Seq::<JsonModel>::empty());
    assert(span_models(out@) =~= start + scopes_spans(ms.take(0)));
    while i < sss.len()
        invariant
            0 <= i <= sss.len(),
            ms == models(sss@),
            ms.len() == sss@.len(),
            forall|j: int| 0 <= j < sss@.len() ==> #[trigger] ms[j] == model(sss@[j]),
            span_models(out@) == start + scopes_spans(ms.take(i as int)),
        decreases sss.len() - i,
    {
        assert(ms.take(i + 1).drop_last() =~= ms.take(i as int));
        assert(ms.take(i + 1).last() == model(sss@[i as int]));
        let sds = match json_get(&sss[i], "spans") {
            Some(x) => json_array(x),
            None => None,
        };
        match sds {
            Some(sds) => {
                let ghost before = span_models(out@);
                collect_spans(sds, out);
                assert(before + spans_of(models(sds@)) =~= start + scopes_spans(ms.take(i + 1)));
            },
            None => {},
        }
        i = i + 1;
    }
    assert(ms.take(i as int) =~= ms);
}

fn collect_resource_spans(rss: &Vec<Json>, out: &mut Vec<Span>)
    ensures
        span_models(final(out)@) == span_models(old(out)@) + resources_spans(models(rss@)),
{
    proof {
        lemma_models(rss@);
    }
    let ghost start = span_models(out@);
    let ghost ms = models(rss@);
    let mut i: usize = 0;
    assert(ms.take(0) =~= Seq::<JsonModel>::empty());
    assert(span_models(out@) =~= start + resources_spans(ms.take(0)));
    while i < rss.len()
        invariant
            0 <= i <= rss.len(),
            ms == models(rss@),
            ms.len() == rss@.len(),
            forall|j: int| 0 <= j < rss@.len() ==> #[trigger] ms[j] == model(rss@[j]),
            span_models(out@) == start + resources_spans(ms.take(i as int)),
        decreases rss.len() - i,
    {
        assert(ms.take(i + 1).drop_last() =~= ms.take(i as int));
        assert(ms.take(i + 1).last() == model(rss@[i as int]));
        let sss = match json_get(&rss[i], "scopeSpans") {
            Some(x) => json_array(x),
            None => None,
        };
        match sss {
            Some(sss) => {
                let ghost before = span_models(out@);
                collect_scope_spans(sss, out);
                assert(before + scopes_spans(models(sss@)) =~= start + resources_spans(ms.take(i + 1)));
            },
            None => {},
        }
        i = i + 1;
    }
    assert(ms.take(i as int) =~= ms);
}

/// Order spans by start, keeping the order of spans with equal starts.
pub fn sort_spans_by_start(spans: Vec<Span>) -> (sorted: Vec<Span>)
    ensures
        span_models(sorted@) == sort_spans(span_models(spans@)),
{
    let ghost all = span_models(spans@);
    let mut rest = spans;
    let mut sorted: Vec<Span> = Vec::new();
    let ghost mut k: int = 0;
    assert(all.take(0) =~= Seq::<SpanModel>::empty());
    assert(span_models(sorted@) =~= Seq::<SpanModel>::empty());
    assert(span_models(rest@) =~= all.skip(0));
    while rest.len() > 0
        invariant
            0 <= k <= all.len(),
            span_models(rest@) == all.skip(k),
            span_models(sorted@) == sort_spans(all.take(k)),
        decreases rest.len(),
    {
        let ghost rb = rest@;
        let e = rest.remove(0);
        let ghost sm = span_models(sorted@);
        proof {
            assert(rb.len() > 0);
            assert(span_models(rb) == all.skip(k));
            assert(all.skip(k).len() == all.len() - k);
            assert(k < all.len());
            assert(span_models(rb)[0] == span_model(e));
            assert(all.skip(k)[0] == all[k]);
            assert(all[k] == span_model(e));
            assert forall|q: int| 0 <= q < rest@.len() implies span_models(rest@)[q] == all.skip(k + 1)[q] by {
                assert(rest@[q] == rb[q + 1]);
                assert(span_models(rb)[q + 1] == all.skip(k)[q + 1]);
            }
            assert(span_models(rest@) =~= all.skip(k + 1));
            assert(all.take(k + 1).drop_last() =~= all.take(k));
            assert(all.take(k + 1).last() == all[k]);
        }
        let t = e.start_time_ns;
        let mut p: usize = 0;
        assert(sm.skip(0) =~= sm);
        while p < sorted.len() && sorted[p].start_time_ns <= t
            invariant
                0 <= p <= sorted@.len(),
                sm == span_models(sorted@),
                span_insert_pos(sm, t as int) == p + span_insert_pos(sm.skip(p as int), t as int),
            decreases sorted@.len() - p,
        {
            assert(sm[p as int] == span_model(sorted@[p as int]));
            assert(sm.skip(p as int)[0] == sm[p as int]);
            assert(sm.skip(p as int).drop_first() =~= sm.skip(p + 1));
            p = p + 1;
        }
        proof {
            if p < sorted@.len() {
                assert(sm[p as int] == span_model(sorted@[p as int]));
                assert(sm.skip(p as int)[0] == sm[p as int]);
            }
            assert(span_insert_pos(sm.skip(p as int), t as int) == 0);
        }
        let ghost before = sorted@;
        sorted.insert(p, e);
        proof {
            assert(span_models(sorted@) =~= sm.insert(p as int, all[k])) by {
                assert forall|q: int| 0 <= q < sorted@.len() implies span_models(sorted@)[q] == sm.insert(p as int, all[k])[q] by {
                    if q < p {
                        assert(sorted@[q] == before[q]);
                    } else if q > p {
                        assert(sorted@[q] == before[q - 1]);
                    }
                }
            }
            k = k + 1;
        }
    }
    assert(all.skip(k).len() == 0);
    assert(all.take(k) =~= all);
    sorted
}

/// Parse traces.json (OpenTelemetry format) into Span objects, ordered by
/// start.
pub fn parse_traces(data: &Json) -> (spans: Vec<Span>)
    ensures
        span_models(spans@) == spec_parse_traces(model(*data)),
{
    let mut spans: Vec<Span> = Vec::new();
    let resources = match json_get(data, "resourceSpans") {
        Some(x) => json_array(x),
        None => None,
    };
    match resources {
        Some(rss) => {
            assert(span_models(spans@) =~= Seq::<SpanModel>::empty());
            collect_resource_spans(rss, &mut spans);
            assert(span_models(spans@) =~= resources_spans(models(rss@)));
            sort_spans_by_start(spans)
        },
        None => {
            assert(span_models(spans@) =~= Seq::<SpanModel>::empty());
            spans
        },
    }
}

/// The records are ordered by time.
pub open spec fn logs_sorted(s: Seq<LogModel>) -> bool {
    forall|i: int, j: int| 0 <= i < j < s.len() ==> s[i].ts <= s[j].ts
}

proof fn lemma_log_insert_pos(s: Seq<LogModel>, t: int)
    requires
        logs_sorted(s),
    ensures
        0 <= log_insert_pos(s, t) <= s.len(),
        forall|i: int| 0 <= i < log_insert_pos(s, t) ==> s[i].ts <= t,
        forall|i: int| log_insert_pos(s, t) <= i < s.len() ==> s[i].ts > t,
    decreases s.len(),
{
    if s.len() > 0 {
        if s[0].ts <= t {
            let r = s.drop_first();
            assert(logs_sorted(r)) by {
                assert forall|i: int, j: int| 0 <= i < j < r.len() implies r[i].ts <= r[j].ts by {
                    assert(r[i] == s[i + 1] && r[j] == s[j + 1]);
                }
            }
            lemma_log_insert_pos(r, t);
            assert forall|i: int| 0 <= i < log_insert_pos(s, t) implies s[i].ts <= t by {
                if i > 0 {
                    assert(s[i] == r[i - 1]);
                }
            }
            assert forall|i: int| log_insert_pos(s, t) <= i < s.len() implies s[i].ts > t by {
                assert(s[i] == r[i - 1]);
            }
        } else {
            assert forall|i: int| 0 <= i < s.len() implies s[i].ts > t by {
                if i > 0 {
                    assert(s[0].ts <= s[i].ts);
                }
            }
        }
    }
}

/// Sorting log records by time gives records ordered by time, and the same
/// records as before.
pub proof fn lemma_sort_logs(s: Seq<LogModel>)
    ensures
        logs_sorted(sort_logs(s)),
        sort_logs(s).to_multiset() == s.to_multiset(),
    decreases s.len(),
{
    broadcast use vstd::seq_lib::to_multiset_insert, vstd::seq_lib::to_multiset_build;

    if s.len() == 0 {
        assert(sort_logs(s) =~= s);
    } else {
        let x = s.last();
        lemma_sort_logs(s.drop_last());
        let sorted = sort_logs(s.drop_last());
        let p = log_insert_pos(sorted, x.ts);
        lemma_log_insert_pos(sorted, x.ts);
        let r = sorted.insert(p, x);
        assert(r == sort_logs(s));
        assert forall|i: int, j: int| 0 <= i < j < r.len() implies r[i].ts <= r[j].ts by {
            if j < p {
                assert(r[i] == sorted[i] && r[j] == sorted[j]);
            } else if j == p {
                assert(r[i] == sorted[i]);
            } else if i < p {
                assert(r[i] == sorted[i] && r[j] == sorted[j - 1]);
            } else if i == p {
                assert(r[j] == sorted[j - 1]);
            } else {
                assert(r[i] == sorted[i - 1] && r[j] == sorted[j - 1]);
            }
        }
        assert(s =~= s.drop_last().push(x));
    }
}

/// The log records of an export come ordered by time, and are exactly the
/// records read from it.
pub proof fn lemma_parse_logs_sorted(data: JsonModel)
    ensures
        logs_sorted(spec_parse_logs(data)),
        array_in(get(data, "resourceLogs"@)) matches Some(rls) ==> spec_parse_logs(data).to_multiset()
            == resources_logs(rls).to_multiset(),
{
    match array_in(get(data, "resourceLogs"@)) {
        Some(rls) => lemma_sort_logs(resources_logs(rls)),
        None => {},
    }
}

/// The spans are ordered by start.
pub open spec fn spans_sorted(s: Seq<SpanModel>) -> bool {
    forall|i: int, j: int| 0 <= i < j < s.len() ==> s[i].start <= s[j].start
}

proof fn lemma_span_insert_pos(s: Seq<SpanModel>, t: int)
    requires
        spans_sorted(s),
    ensures
        0 <= span_insert_pos(s, t) <= s.len(),
        forall|i: int| 0 <= i < span_insert_pos(s, t) ==> s[i].start <= t,
        forall|i: int| span_insert_pos(s, t) <= i < s.len() ==> s[i].start > t,
    decreases s.len(),
{
    if s.len() > 0 {
        if s[0].start <= t {
            let r = s.drop_first();
            assert(spans_sorted(r)) by {
                assert forall|i: int, j: int| 0 <= i < j < r.len() implies r[i].start <= r[j].start by {
                    assert(r[i] == s[i + 1] && r[j] == s[j + 1]);
                }
            }
            lemma_span_insert_pos(r, t);
            assert forall|i: int| 0 <= i < span_insert_pos(s, t) implies s[i].start <= t by {
                if i > 0 {
                    assert(s[i] == r[i - 1]);
                }
            }
            assert forall|i: int| span_insert_pos(s, t) <= i < s.len() implies s[i].start > t by {
                assert(s[i] == r[i - 1]);
            }
        } else {
            assert forall|i: int| 0 <= i < s.len() implies s[i].start > t by {
                if i > 0 {
                    assert(s[0].start <= s[i].start);
                }
            }
        }
    }
}

/// Sorting spans by start gives spans ordered by start, and the same spans
/// as before.
pub proof fn lemma_sort_spans(s: Seq<SpanModel>)
    ensures
        spans_sorted(sort_spans(s)),
        sort_spans(s).to_multiset() == s.to_multiset(),
    decreases s.len(),
{
    broadcast use vstd::seq_lib::to_multiset_insert, vstd::seq_lib::to_multiset_build;

    if s.len() == 0 {
        assert(sort_spans(s) =~= s);
    } else {
        let x = s.last();
        lemma_sort_spans(s.drop_last());
        let sorted = sort_spans(s.drop_last());
        let p = span_insert_pos(sorted, x.start);
        lemma_span_insert_pos(sorted, x.start);
        let r = sorted.insert(p, x);
        assert(r == sort_spans(s));
        assert forall|i: int, j: int| 0 <= i < j < r.len() implies r[i].start <= r[j].start by {
            if j < p {
                assert(r[i] == sorted[i] && r[j] == sorted[j]);
            } else if j == p {
                assert(r[i] == sorted[i]);
            } else if i < p {
                assert(r[i] == sorted[i] && r[j] == sorted[j - 1]);
            } else if i == p {
                assert(r[j] == sorted[j - 1]);
            } else {
                assert(r[i] == sorted[i - 1] && r[j] == sorted[j - 1]);
            }
        }
        assert(s =~= s.drop_last().push(x));
    }
}

/// The spans of a traces export come ordered by start, and are exactly the
/// spans read from it.
pub proof fn lemma_parse_traces_sorted(data: JsonModel)
    ensures
        spans_sorted(spec_parse_traces(data)),
        array_in(get(data, "resourceSpans"@)) matches Some(rss) ==> spec_parse_traces(data).to_multiset()
            == resources_spans(rss).to_multiset(),
{
    match array_in(get(data, "resourceSpans"@)) {
        Some(rss) => lemma_sort_spans(resources_spans(rss)),
        None => {},
    }
}

/// Mathematical form of a conversation item.
pub struct TurnModel {
    pub id: Seq<char>,
    pub turn_type: Seq<char>,
    pub role: Option<Seq<char>>,
    pub content: Seq<Seq<char>>,
    pub interrupted: bool,
    pub created_at: Option<JsonModel>,
    pub metrics: Option<JsonModel>,
    pub extra: Seq<(Seq<char>, JsonModel)>,
}

pub open spec fn opt_text(o: Option<String>) -> Option<Seq<char>> {
    match o {
        Some(s) => Some(s@),
        None => None,
    }
}

pub open spec fn opt_model(o: Option<Json>) -> Option<JsonModel> {
    match o {
        Some(v) => Some(model(v)),
        None => None,
    }
}

pub open spec fn turn_model(t: ConversationTurn) -> TurnModel {
    TurnModel {
        id: t.id@,
        turn_type: t.turn_type@,
        role: opt_text(t.role),
        content: t.content@.map_values(|c: String| c@),
        interrupted: t.interrupted,
        created_at: opt_model(t.created_at),
        metrics: opt_model(t.metrics),
        extra: entry_models(t.extra@),
    }
}

/// The strings among the values, in order.
pub open spec fn str_items(a: Seq<JsonModel>) -> Seq<Seq<char>>
    decreases a.len(),
{
    if a.len() == 0 {
        Seq::empty()
    } else {
        match a.last() {
            JsonModel::Str(s) => str_items(a.drop_last()).push(s),
            _ => str_items(a.drop_last()),
        }
    }
}

/// Content of an item: the strings of an array, a single string, or nothing.
pub open spec fn spec_content(c: Option<JsonModel>) -> Seq<Seq<char>> {
    match c {
        Some(JsonModel::Array(a)) => str_items(a),
        Some(JsonModel::Str(s)) => seq![s],
        _ => Seq::empty(),
    }
}

/// `es` with an entry for `k` added at the end when `v` is given and `k`
/// has no entry yet.
pub open spec fn insert_absent(es: Seq<(Seq<char>, JsonModel)>, k: Seq<char>, v: Option<JsonModel>) -> Seq<(Seq<char>, JsonModel)> {
    match v {
        Some(x) => match entry_index(es, k, 0) {
            Some(_) => es,
            None => es.push((k, x)),
        },
        None => es,
    }
}

/// Extra fields of an item: the entries of its "extra" object, then its
/// top-level "name", "arguments", "call_id" and "output" where "extra" has
/// none of that key.
pub open spec fn spec_extra(item: JsonModel) -> Seq<(Seq<char>, JsonModel)> {
    let base = match get(item, "extra"@) {
        Some(JsonModel::Object(es)) => es,
        _ => Seq::empty(),
    };
    let e1 = insert_absent(base, "name"@, get(item, "name"@));
    let e2 = insert_absent(e1, "arguments"@, get(item, "arguments"@));
    let e3 = insert_absent(e2, "call_id"@, get(item, "call_id"@));
    insert_absent(e3, "output"@, get(item, "output"@))
}

/// An item of the history when it has a string "id" and a string "type".
pub open spec fn spec_turn(item: JsonModel) -> Option<TurnModel> {
    match (str_in(get(item, "id"@)), str_in(get(item, "type"@))) {
        (Some(id), Some(t)) => Some(
            TurnModel {
                id,
                turn_type: t,
                role: str_in(get(item, "role"@)),
                content: spec_content(get(item, "content"@)),
                interrupted: match get(item, "interrupted"@) {
                    Some(JsonModel::Bool(b)) => b,
                    _ => false,
                },
                created_at: get(item, "created_at"@),
                metrics: get(item, "metrics"@),
                extra: spec_extra(item),
            },
        ),
        _ => None,
    }
}

/// The items of the history that can be read, in order.
pub open spec fn spec_turns(items: Seq<JsonModel>) -> Seq<TurnModel>
    decreases items.len(),
{
    if items.len() == 0 {
        Seq::empty()
    } else {
        match spec_turn(items.last()) {
            Some(t) => spec_turns(items.drop_last()).push(t),
            None => spec_turns(items.drop_last()),
        }
    }
}

/// The conversation history: the readable items of its "items" array.
pub open spec fn spec_chat_history(data: JsonModel) -> Seq<TurnModel> {
    match array_in(get(data, "items"@)) {
        Some(items) => spec_turns(items),
        None => Seq::empty(),
    }
}

fn copy_opt(r: Option<&Json>) -> (o: Option<Json>)
    ensures
        opt_model(o) == ref_model(r),
{
    match r {
        Some(x) => Some(copy_json(x)),
        None => None,
    }
}

fn content_of(c: Option<&Json>) -> (v: Vec<String>)
    ensures
        v@.map_values(|s: String| s@) == spec_content(ref_model(c)),
{
    match c {
        Some(Json::Array(arr)) => {
            proof {
                lemma_models(arr@);
            }
            let ghost ms = models(arr@);
            let mut out: Vec<String> = Vec::new();
            let mut i: usize = 0;
            assert(ms.take(0) =~= Seq::<JsonModel>::empty());
            assert(out@.map_values(|s: String| s@) =~= str_items(ms.take(0)));
            while i < arr.len()
                invariant
                    0 <= i <= arr.len(),
                    ms == models(arr@),
                    ms.len() == arr@.len(),
                    forall|j: int| 0 <= j < arr@.len() ==> #[trigger] ms[j] == model(arr@[j]),
                    out@.map_values(|s: String| s@) == str_items(ms.take(i as int)),
                decreases arr.len() - i,
            {
                assert(ms.take(i + 1).drop_last() =~= ms.take(i as int));
                assert(ms.take(i + 1).last() == model(arr@[i as int]));
                match &arr[i] {
                    Json::Str(s) => {
                        out.push(s.clone());
                        assert(out@.map_values(|s: String| s@) =~= str_items(ms.take(i + 1)));
                    },
                    _ => {},
                }
                i = i + 1;
            }
            assert(ms.take(i as int) =~= ms);
            out
        },
        Some(Json::Str(s)) => {
            let mut out: Vec<String> = Vec::new();
            out.push(s.clone());
            assert(out@.map_values(|s: String| s@) =~= seq![s@]);
            out
        },
        _ => {
            let out: Vec<String> = Vec::new();
            assert(out@.map_values(|s: String| s@) =~= Seq::<Seq<char>>::empty());
            out
        },
    }
}

fn insert_if_absent(entries: &mut Vec<(String, Json)>, k: &str, v: Option<&Json>)
    ensures
        entry_models(final(entries)@) == insert_absent(entry_models(old(entries)@), k@, ref_model(v)),
{
    match v {
        None => {},
        Some(x) => {
            proof {
                lemma_entry_models(entries@);
            }
            let ghost es = entry_models(entries@);
            let mut i: usize = 0;
            while i < entries.len()
                invariant
                    0 <= i <= entries.len(),
                    es == entry_models(entries@),
                    entries@ == old(entries)@,
                    es.len() == entries@.len(),
                    forall|j: int| 0 <= j < entries@.len() ==> #[trigger] es[j] == (entries@[j].0@, model(entries@[j].1)),
                    entry_index(es, k@, 0) == entry_index(es, k@, i as int),
                decreases entries.len() - i,
            {
                assert(es[i as int] == (entries@[i as int].0@, model(entries@[i as int].1)));
                if str_eq(entries[i].0.as_str(), k) {
                    assert(entry_index(es, k@, i as int) == Some(i as int));
                    return;
                }
                i = i + 1;
            }
            let key = String::from_str(k);
            let val = copy_json(x);
            let ghost km = (key@, model(val));
            entries.push((key, val));
            proof {
                lemma_entry_models(entries@);
                assert(entry_models(entries@) =~= es.push(km));
            }
        },
    }
}

fn extra_of(item: &Json) -> (es: Vec<(String, Json)>)
    ensures
        entry_models(es@) == spec_extra(model(*item)),
{
    let ex = json_get(item, "extra");
    let mut entries: Vec<(String, Json)> = match ex {
        Some(x) => {
            let c = copy_json(x);
            match c {
                Json::Object(es) => es,
                _ => {
                    let e: Vec<(String, Json)> = Vec::new();
                    assert(entry_models(e@) =~= Seq::<(Seq<char>, JsonModel)>::empty());
                    e
                },
            }
        },
        None => {
            let e: Vec<(String, Json)> = Vec::new();
            assert(entry_models(e@) =~= Seq::<(Seq<char>, JsonModel)>::empty());
            e
        },
    };
    insert_if_absent(&mut entries, "name", json_get(item, "name"));
    insert_if_absent(&mut entries, "arguments", json_get(item, "arguments"));
    insert_if_absent(&mut entries, "call_id", json_get(item, "call_id"));
    insert_if_absent(&mut entries, "output", json_get(item, "output"));
    entries
}

/// Read one item of the conversation history; `None` when it has no string
/// "id" or no string "type".
pub fn parse_conversation_turn(item: &Json) -> (r: Option<ConversationTurn>)
    ensures
        match r {
            Some(t) => spec_turn(model(*item)) == Some(turn_model(t)),
            None => spec_turn(model(*item)) is None,
        },
{
    let id = match json_get(item, "id") {
        Some(x) => json_str(x),
        None => None,
    };
    let ty = match json_get(item, "type") {
        Some(x) => json_str(x),
        None => None,
    };
    match (id, ty) {
        (Some(id), Some(ty)) => {
            let role = match json_get(item, "role") {
                Some(x) => match json_str(x) {
                    Some(s) => Some(String::from_str(s)),
                    None => None,
                },
                None => None,
            };
            let content = content_of(json_get(item, "content"));
            let interrupted = match json_get(item, "interrupted") {
                Some(x) => match json_bool(x) {
                    Some(b) => b,
                    None => false,
                },
                None => false,
            };
            let created_at = copy_opt(json_get(item, "created_at"));
            let metrics = copy_opt(json_get(item, "metrics"));
            let extra = extra_of(item);
            let t = ConversationTurn {
                id: String::from_str(id),
                turn_type: String::from_str(ty),
                role,
                content,
                interrupted,
                created_at,
                metrics,
                extra,
            };
            proof {
                let m = model(*item);
                match get(m, "interrupted"@) {
                    Some(JsonModel::Bool(b)) => {},
                    _ => {},
                }
            }
            Some(t)
        },
        _ => None,
    }
}

/// Read the conversation history: the items of its "items" array that have
/// a string "id" and a string "type"; nothing when there is no such array.
pub fn parse_chat_history(data: &Json) -> (turns: Vec<ConversationTurn>)
    ensures
        turns@.map_values(|t: ConversationTurn| turn_model(t)) == spec_chat_history(model(*data)),
{
    let items = match json_get(data, "items") {
        Some(x) => json_array(x),
        None => None,
    };
    let mut out: Vec<ConversationTurn> = Vec::new();
    match items {
        Some(arr) => {
            proof {
                lemma_models(arr@);
            }
            let ghost ms = models(arr@);
            let mut i: usize = 0;
            assert(ms.take(0) =~= Seq::<JsonModel>::empty());
            assert(out@.map_values(|t: ConversationTurn| turn_model(t)) =~= spec_turns(ms.take(0)));
            while i < arr.len()
                invariant
                    0 <= i <= arr.len(),
                    ms == models(arr@),
                    ms.len() == arr@.len(),
                    forall|j: int| 0 <= j < arr@.len() ==> #[trigger] ms[j] == model(arr@[j]),
                    out@.map_values(|t: ConversationTurn| turn_model(t)) == spec_turns(ms.take(i as int)),
                decreases arr.len() - i,
            {
                assert(ms.take(i + 1).drop_last() =~= ms.take(i as int));
                assert(ms.take(i + 1).last() == model(arr@[i as int]));
                match parse_conversation_turn(&arr[i]) {
                    Some(t) => {
                        out.push(t);
                        assert(out@.map_values(|t: ConversationTurn| turn_model(t)) =~= spec_turns(ms.take(i + 1)));
                    },
                    None => {},
                }
                i = i + 1;
            }
            assert(ms.take(i as int) =~= ms);
            out
        },
        None => {
            assert(out@.map_values(|t: ConversationTurn| turn_model(t)) =~= Seq::<TurnModel>::empty());
            out
        },
    }
}

} // verus!

//! Tool calls read from a transcript: each `tool_use` block of an assistant
//! entry, matched with the `tool_result` block of a later user entry, with
//! timings, result size and the context growth around the call.

use vstd::prelude::*;
use crate::assoc::{find_key, key_view, lemma_last_index, lemma_last_index_same_keys, lookup};
use crate::json::{
    entries_model, lemma_array_model, lemma_object_model, opt_bool, opt_str, str_eq, u64_or_zero, values_model, Json, JsonModel, NumberModel,
};
use crate::json_text::{parse_json, spec_parse_json};
use crate::hooks::text_or_empty;
use crate::transcript::{
    content_of, count_typed, entries_of, has_type, i64_model, is_turn_duration, json_i64, json_u64,
    parse_lines, parsed, total_stats, usage_ctx, Overflow,
};

verus! {

// ---------------------------------------------------------------------------
// Timestamps
// ---------------------------------------------------------------------------

/// The signed number of milliseconds from one RFC 3339 timestamp to another,
/// as chrono computes it (`(to - from).num_milliseconds()` of the parsed
/// times), or `None` when either does not parse.
pub uninterp spec fn spec_rfc3339_diff_ms(from: Seq<char>, to: Seq<char>) -> Option<i64>;

/// Parses both texts with `chrono::DateTime::parse_from_rfc3339` and returns
/// `(to - from).num_milliseconds()`; `None` when either fails to parse.
/// Claims that the result is what `spec_rfc3339_diff_ms` names.
#[verifier::external_body]
fn rfc3339_diff_ms(from: &str, to: &str) -> (r: Option<i64>)
    ensures
        r == spec_rfc3339_diff_ms(from@, to@),
{
    match (chrono::DateTime::parse_from_rfc3339(from), chrono::DateTime::parse_from_rfc3339(to)) {
        (Ok(a), Ok(b)) => Some((b - a).num_milliseconds()),
        _ => None,
    }
}

/// The time between two timestamps; nothing when either is empty.
pub open spec fn spec_ts_diff_ms(from: Seq<char>, to: Seq<char>) -> Option<i64> {
    if from.len() == 0 || to.len() == 0 {
        None
    } else {
        spec_rfc3339_diff_ms(from, to)
    }
}

/// Milliseconds from `from` to `to`; nothing when either is empty or is not
/// an RFC 3339 timestamp.
pub fn ts_diff_ms(from: &str, to: &str) -> (r: Option<i64>)
    ensures
        r == spec_ts_diff_ms(from@, to@),
{
    if from.unicode_len() == 0 || to.unicode_len() == 0 {
        return None;
    }
    rfc3339_diff_ms(from, to)
}

// ---------------------------------------------------------------------------
// Result sizes
// ---------------------------------------------------------------------------

/// The UTF-8 length of a text (`str::len`).
pub open spec fn byte_len(s: Seq<char>) -> int {
    vstd::utf8::encode_utf8(s).len() as int
}

/// The total UTF-8 length of the `text` members of content blocks.
pub open spec fn text_bytes(items: Seq<JsonModel>) -> int
    decreases items.len(),
{
    if items.len() == 0 {
        0
    } else {
        text_bytes(items.drop_last()) + match opt_str(items.last().get("text"@)) {
            Some(t) => byte_len(t),
            None => 0,
        }
    }
}

/// The size of a tool result: the bytes of its text blocks, or of its text
/// content, or 0.
pub open spec fn result_size(item: JsonModel) -> int {
    match item.get("content"@) {
        Some(JsonModel::Array(a)) => text_bytes(a),
        Some(JsonModel::Str(s)) => byte_len(s),
        _ => 0,
    }
}

proof fn lemma_text_bytes_prefix(items: Seq<JsonModel>, j: int)
    requires
        0 <= j <= items.len(),
    ensures
        0 <= text_bytes(items.take(j)) <= text_bytes(items),
    decreases items.len(),
{
    if j < items.len() {
        assert(items.drop_last().take(j) =~= items.take(j));
        lemma_text_bytes_prefix(items.drop_last(), j);
    } else {
        assert(items.take(j) =~= items);
        if items.len() > 0 {
            lemma_text_bytes_prefix(items.drop_last(), j - 1);
            assert(items.drop_last().take(j - 1) =~= items.drop_last());
        }
    }
}

/// The size of a tool result's content.
fn compute_result_size(item: &Json) -> (r: Result<usize, Overflow>)
    ensures
        match r {
            Ok(n) => n == result_size(item@),
            Err(_) => result_size(item@) > usize::MAX,
        },
{
    match item.get("content") {
        Some(c) => match c {
            Json::Array(arr) => {
                proof {
                    lemma_array_model(*arr);
                }
                let ghost m = values_model(arr@);
                let mut n: usize = 0;
                let mut j: usize = 0;
                while j < arr.len()
                    invariant
                        j <= arr.len(),
                        m == values_model(arr@),
                        n == text_bytes(m.take(j as int)),
                        result_size(item@) == text_bytes(m),
                    decreases arr.len() - j,
                {
                    proof {
                        assert(m.take(j + 1).drop_last() =~= m.take(j as int));
                        lemma_text_bytes_prefix(m, j + 1);
                    }
                    match arr[j].get("text") {
                        Some(t) => match t.as_str() {
                            Some(s) => {
                                n = match n.checked_add(s.as_bytes().len()) {
                                    Some(x) => x,
                                    None => return Err(Overflow),
                                };
                            },
                            None => {},
                        },
                        None => {},
                    }
                    j = j + 1;
                }
                proof {
                    assert(m.take(arr.len() as int) =~= m);
                }
                Ok(n)
            },
            Json::Str(s) => Ok(s.as_str().as_bytes().len()),
            _ => Ok(0),
        },
        None => Ok(0),
    }
}

// ---------------------------------------------------------------------------
// Calls and results
// ---------------------------------------------------------------------------

/// A recorded `tool_use` block.
pub struct CallRecord {
    pub name: Json,
    pub input: Json,
    pub call_ts: String,
    pub context_tokens: u64,
}

/// A recorded `tool_result` block.
pub struct ResultRecord {
    pub return_ts: String,
    pub is_error: bool,
    pub result_size: usize,
}

/// The model of a recorded call.
pub struct CallModel {
    pub name: JsonModel,
    pub input: JsonModel,
    pub call_ts: Seq<char>,
    pub context_tokens: int,
}

/// The model of a recorded result.
pub struct ResultModel {
    pub return_ts: Seq<char>,
    pub is_error: bool,
    pub result_size: int,
}

impl View for CallRecord {
    type V = CallModel;

    open spec fn view(&self) -> CallModel {
        CallModel {
            name: self.name@,
            input: self.input@,
            call_ts: self.call_ts@,
            context_tokens: self.context_tokens as int,
        }
    }
}

impl View for ResultRecord {
    type V = ResultModel;

    open spec fn view(&self) -> ResultModel {
        ResultModel {
            return_ts: self.return_ts@,
            is_error: self.is_error,
            result_size: self.result_size as int,
        }
    }
}

/// The models of a list of keyed records.
pub open spec fn records_model<V: View>(v: Seq<(String, V)>) -> Seq<(Seq<char>, V::V)> {
    Seq::new(v.len(), |i: int| (v[i].0@, v[i].1@))
}

/// A value, or JSON null.
pub open spec fn or_null(v: Option<JsonModel>) -> JsonModel {
    match v {
        Some(v) => v,
        None => JsonModel::Null,
    }
}

/// The timestamp of an entry, or empty text.
pub open spec fn entry_ts(e: JsonModel) -> Seq<char> {
    text_or_empty(opt_str(e.get("timestamp"@)))
}

/// The id of a `tool_use` block.
pub open spec fn call_id(item: JsonModel) -> Option<Seq<char>> {
    if has_type(item, "tool_use"@) {
        opt_str(item.get("id"@))
    } else {
        None
    }
}

/// The id of the call a `tool_result` block answers.
pub open spec fn result_id(item: JsonModel) -> Option<Seq<char>> {
    if has_type(item, "tool_result"@) {
        opt_str(item.get("tool_use_id"@))
    } else {
        None
    }
}

/// The calls among an assistant entry's content blocks.
pub open spec fn item_calls(items: Seq<JsonModel>, ts: Seq<char>, ctx: int) -> Seq<(Seq<char>, CallModel)>
    decreases items.len(),
{
    if items.len() == 0 {
        Seq::empty()
    } else {
        let rest = item_calls(items.drop_last(), ts, ctx);
        let it = items.last();
        match call_id(it) {
            Some(id) => rest.push(
                (
                    id,
                    CallModel {
                        name: or_null(it.get("name"@)),
                        input: or_null(it.get("input"@)),
                        call_ts: ts,
                        context_tokens: ctx,
                    },
                ),
            ),
            None => rest,
        }
    }
}

/// The results among a user entry's content blocks.
pub open spec fn item_results(items: Seq<JsonModel>, ts: Seq<char>) -> Seq<(Seq<char>, ResultModel)>
    decreases items.len(),
{
    if items.len() == 0 {
        Seq::empty()
    } else {
        let rest = item_results(items.drop_last(), ts);
        let it = items.last();
        match result_id(it) {
            Some(id) => rest.push(
                (
                    id,
                    ResultModel {
                        return_ts: ts,
                        is_error: opt_bool(it.get("is_error"@)) == Some(true),
                        result_size: result_size(it),
                    },
                ),
            ),
            None => rest,
        }
    }
}

/// The calls an entry makes.
pub open spec fn entry_calls(e: Option<JsonModel>) -> Seq<(Seq<char>, CallModel)> {
    match e {
        Some(e) => if has_type(e, "assistant"@) {
            match content_of(e) {
                Some(items) => item_calls(items, entry_ts(e), usage_ctx(e)),
                None => Seq::empty(),
            }
        } else {
            Seq::empty()
        },
        None => Seq::empty(),
    }
}

/// The results an entry reports.
pub open spec fn entry_results(e: Option<JsonModel>) -> Seq<(Seq<char>, ResultModel)> {
    match e {
        Some(e) => if has_type(e, "user"@) {
            match content_of(e) {
                Some(items) => item_results(items, entry_ts(e)),
                None => Seq::empty(),
            }
        } else {
            Seq::empty()
        },
        None => Seq::empty(),
    }
}

/// Every call of the transcript, in order.
pub open spec fn all_calls(es: Seq<Option<JsonModel>>) -> Seq<(Seq<char>, CallModel)>
    decreases es.len(),
{
    if es.len() == 0 {
        Seq::empty()
    } else {
        all_calls(es.drop_last()) + entry_calls(es.last())
    }
}

/// Every result of the transcript, in order.
pub open spec fn all_results(es: Seq<Option<JsonModel>>) -> Seq<(Seq<char>, ResultModel)>
    decreases es.len(),
{
    if es.len() == 0 {
        Seq::empty()
    } else {
        all_results(es.drop_last()) + entry_results(es.last())
    }
}

/// Every assistant entry's context size fits a `u64`.
pub open spec fn ctx_fits(es: Seq<Option<JsonModel>>) -> bool {
    forall|i: int|
        0 <= i < es.len() && #[trigger] es[i] is Some && has_type(es[i]->0, "assistant"@)
            ==> usage_ctx(es[i]->0) <= u64::MAX
}

/// Every tool result's size fits a `usize`.
pub open spec fn sizes_fit(es: Seq<Option<JsonModel>>) -> bool {
    forall|i: int, m: int|
        0 <= i < es.len() && #[trigger] es[i] is Some && has_type(es[i]->0, "user"@) && content_of(
            es[i]->0,
        ) is Some && 0 <= m < content_of(es[i]->0)->0.len() && result_id(
            #[trigger] content_of(es[i]->0)->0[m],
        ) is Some ==> result_size(content_of(es[i]->0)->0[m]) <= usize::MAX
}

/// The context size of an assistant entry.
fn usage_ctx_exec(e: &Json) -> (r: Result<u64, Overflow>)
    ensures
        match r {
            Ok(n) => n == usage_ctx(e@),
            Err(_) => usage_ctx(e@) > u64::MAX,
        },
{
    match e.get("message") {
        Some(m) => match m.get("usage") {
            Some(u) => {
                let a = u64_member_or_zero(u, "input_tokens");
                let b = u64_member_or_zero(u, "cache_creation_input_tokens");
                let c = u64_member_or_zero(u, "cache_read_input_tokens");
                match a.checked_add(b) {
                    Some(ab) => match ab.checked_add(c) {
                        Some(abc) => Ok(abc),
                        None => Err(Overflow),
                    },
                    None => Err(Overflow),
                }
            },
            None => Ok(0),
        },
        None => Ok(0),
    }
}

fn u64_member_or_zero(v: &Json, k: &str) -> (r: u64)
    ensures
        r == u64_or_zero(v@.get(k@)),
{
    match v.get(k) {
        Some(x) => match x.as_u64() {
            Some(n) => n,
            None => 0,
        },
        None => 0,
    }
}

fn type_is(v: &Json, t: &str) -> (r: bool)
    ensures
        r == has_type(v@, t@),
{
    match v.get("type") {
        Some(x) => match x.as_str() {
            Some(s) => str_eq(s, t),
            None => false,
        },
        None => false,
    }
}

fn str_member<'a>(v: &'a Json, k: &str) -> (r: Option<&'a str>)
    ensures
        match r {
            Some(s) => opt_str(v@.get(k@)) == Some(s@),
            None => opt_str(v@.get(k@)) is None,
        },
{
    match v.get(k) {
        Some(x) => x.as_str(),
        None => None,
    }
}

fn member_or_null(v: &Json, k: &str) -> (r: Json)
    ensures
        r@ == or_null(v@.get(k@)),
{
    match v.get(k) {
        Some(x) => x.deep_clone(),
        None => Json::Null,
    }
}

fn content_items(v: &Json) -> (r: Option<&Vec<Json>>)
    ensures
        match r {
            Some(a) => content_of(v@) == Some(values_model(a@)),
            None => content_of(v@) is None,
        },
{
    match v.get("message") {
        Some(m) => match m.get("content") {
            Some(c) => c.as_array(),
            None => None,
        },
        None => None,
    }
}

/// Records the calls among an assistant entry's blocks.
fn record_calls(items: &Vec<Json>, ts: &str, ctx: u64, out: &mut Vec<(String, CallRecord)>)
    ensures
        records_model(final(out)@) == records_model(old(out)@) + item_calls(
            values_model(items@),
            ts@,
            ctx as int,
        ),
{
    let ghost m = values_model(items@);
    let ghost base = records_model(old(out)@);
    let mut j: usize = 0;
    while j < items.len()
        invariant
            j <= items.len(),
            m == values_model(items@),
            records_model(out@) == base + item_calls(m.take(j as int), ts@, ctx as int),
        decreases items.len() - j,
    {
        proof {
            assert(m.take(j + 1).drop_last() =~= m.take(j as int));
        }
        let it = &items[j];
        if type_is(it, "tool_use") {
            match str_member(it, "id") {
                Some(id) => {
                    let rec = CallRecord {
                        name: member_or_null(it, "name"),
                        input: member_or_null(it, "input"),
                        call_ts: String::from_str(ts),
                        context_tokens: ctx,
                    };
                    let ghost before = records_model(out@);
                    out.push((String::from_str(id), rec));
                    proof {
                        assert(records_model(out@) =~= before.push((id@, out@.last().1@)));
                    }
                },
                None => {},
            }
        }
        j = j + 1;
    }
    proof {
        assert(m.take(items.len() as int) =~= m);
    }
}

/// Records the results among a user entry's blocks.
fn record_results(items: &Vec<Json>, ts: &str, out: &mut Vec<(String, ResultRecord)>) -> (r: Result<
    (),
    Overflow,
>)
    ensures
        match r {
            Ok(_) => records_model(final(out)@) == records_model(old(out)@) + item_results(
                values_model(items@),
                ts@,
            ) && forall|k: int|
                0 <= k < items.len() && result_id(#[trigger] values_model(items@)[k]) is Some
                    ==> result_size(values_model(items@)[k]) <= usize::MAX,
            Err(_) => exists|k: int|
                0 <= k < items.len() && result_id(#[trigger] values_model(items@)[k]) is Some
                    && result_size(values_model(items@)[k]) > usize::MAX,
        },
{
    let ghost m = values_model(items@);
    let ghost base = records_model(old(out)@);
    let mut j: usize = 0;
    while j < items.len()
        invariant
            j <= items.len(),
            m == values_model(items@),
            records_model(out@) == base + item_results(m.take(j as int), ts@),
            forall|k: int|
                0 <= k < j && result_id(#[trigger] m[k]) is Some ==> result_size(m[k]) <= usize::MAX,
        decreases items.len() - j,
    {
        proof {
            assert(m.take(j + 1).drop_last() =~= m.take(j as int));
        }
        let it = &items[j];
        if type_is(it, "tool_result") {
            match str_member(it, "tool_use_id") {
                Some(id) => {
                    let size = match compute_result_size(it) {
                        Ok(n) => n,
                        Err(e) => {
                            proof {
                                assert(result_id(m[j as int]) is Some);
                            }
                            return Err(e);
                        },
                    };
                    let is_error = match it.get("is_error") {
                        Some(b) => b.as_bool() == Some(true),
                        None => false,
                    };
                    let rec = ResultRecord {
                        return_ts: String::from_str(ts),
                        is_error,
                        result_size: size,
                    };
                    let ghost before = records_model(out@);
                    out.push((String::from_str(id), rec));
                    proof {
                        assert(records_model(out@) =~= before.push((id@, out@.last().1@)));
                    }
                },
                None => {},
            }
        }
        j = j + 1;
    }
    proof {
        assert(m.take(items.len() as int) =~= m);
    }
    Ok(())
}

fn entry_ts_exec<'a>(e: &'a Json) -> (r: &'a str)
    ensures
        r@ == entry_ts(e@),
{
    match str_member(e, "timestamp") {
        Some(t) => t,
        None => {
            proof {
                reveal_strlit("");
            }
            ""
        },
    }
}

/// The first pass over a transcript: every call and every result, in order.
fn collect_calls_and_results(entries: &Vec<Option<Json>>) -> (r: Result<
    (Vec<(String, CallRecord)>, Vec<(String, ResultRecord)>),
    Overflow,
>)
    ensures
        ({
            let es = entries_of(entries@);
            match r {
                Ok((calls, results)) => records_model(calls@) == all_calls(es) && records_model(
                    results@,
                ) == all_results(es) && ctx_fits(es) && sizes_fit(es),
                Err(_) => !(ctx_fits(es) && sizes_fit(es)),
            }
        }),
{
    let ghost es = entries_of(entries@);
    let mut calls: Vec<(String, CallRecord)> = Vec::new();
    let mut results: Vec<(String, ResultRecord)> = Vec::new();
    let mut i: usize = 0;
    proof {
        assert(records_model(calls@) =~= all_calls(es.take(0)));
        assert(records_model(results@) =~= all_results(es.take(0)));
    }
    while i < entries.len()
        invariant
            i <= entries.len(),
            es == entries_of(entries@),
            records_model(calls@) == all_calls(es.take(i as int)),
            records_model(results@) == all_results(es.take(i as int)),
            ctx_fits(es.take(i as int)),
            sizes_fit(es.take(i as int)),
        decreases entries.len() - i,
    {
        let ghost next = es.take(i + 1);
        proof {
            reveal_strlit("assistant");
            reveal_strlit("user");
            assert("assistant"@.len() != "user"@.len());
            assert(next.drop_last() =~= es.take(i as int));
            assert(next.last() == es[i as int]);
        }
        match &entries[i] {
            Some(e) => {
                proof {
                    assert(es[i as int] == Some(e@));
                }
                if type_is(e, "assistant") {
                    let ctx = match usage_ctx_exec(e) {
                        Ok(n) => n,
                        Err(x) => {
                            proof {
                                assert(es[i as int] is Some && has_type(es[i as int]->0, "assistant"@));
                            }
                            return Err(x);
                        },
                    };
                    let ts = entry_ts_exec(e);
                    match content_items(e) {
                        Some(items) => {
                            record_calls(items, ts, ctx, &mut calls);
                        },
                        None => {},
                    }
                    proof {
                        assert(records_model(calls@) =~= all_calls(next));
                        assert(records_model(results@) =~= all_results(next));
                    }
                } else if type_is(e, "user") {
                    let ts = entry_ts_exec(e);
                    match content_items(e) {
                        Some(items) => {
                            match record_results(items, ts, &mut results) {
                                Ok(_) => {},
                                Err(x) => {
                                    proof {
                                        let k = choose|k: int|
                                            0 <= k < items.len() && result_id(
                                                #[trigger] values_model(items@)[k],
                                            ) is Some && result_size(values_model(items@)[k])
                                                > usize::MAX;
                                        assert(content_of(es[i as int]->0)->0[k] == values_model(
                                            items@,
                                        )[k]);
                                    }
                                    return Err(x);
                                },
                            }
                        },
                        None => {},
                    }
                    proof {
                        assert(records_model(calls@) =~= all_calls(next));
                        assert(records_model(results@) =~= all_results(next));
                    }
                } else {
                    proof {
                        assert(records_model(calls@) =~= all_calls(next));
                        assert(records_model(results@) =~= all_results(next));
                    }
                }
            },
            None => {
                proof {
                    assert(records_model(calls@) =~= all_calls(next));
                    assert(records_model(results@) =~= all_results(next));
                }
            },
        }
        proof {
            assert forall|k: int|
                0 <= k < next.len() && #[trigger] next[k] is Some && has_type(next[k]->0, "assistant"@)
                implies usage_ctx(next[k]->0) <= u64::MAX by {
                if k < i {
                    assert(next[k] == es.take(i as int)[k]);
                }
            }
            assert forall|k: int, m: int|
                0 <= k < next.len() && #[trigger] next[k] is Some && has_type(next[k]->0, "user"@)
                    && content_of(next[k]->0) is Some && 0 <= m < content_of(next[k]->0)->0.len()
                    && result_id(#[trigger] content_of(next[k]->0)->0[m]) is Some implies result_size(
                content_of(next[k]->0)->0[m],
            ) <= usize::MAX by {
                if k < i {
                    assert(next[k] == es.take(i as int)[k]);
                }
            }
        }
        i = i + 1;
    }
    proof {
        assert(es.take(entries.len() as int) =~= es);
    }
    Ok((calls, results))
}

// ---------------------------------------------------------------------------
// Context growth
// ---------------------------------------------------------------------------

/// The context size of the first assistant entry after entry `i`, or 0 when
/// there is none.
pub open spec fn next_ctx(es: Seq<Option<JsonModel>>, i: int) -> int
    decreases es.len() - i,
{
    if i + 1 >= es.len() || i < -1 {
        0
    } else if es[i + 1] is Some && has_type(es[i + 1]->0, "assistant"@) {
        usage_ctx(es[i + 1]->0)
    } else {
        next_ctx(es, i + 1)
    }
}

/// A `u64` read as an `i64` (`as i64`).
pub open spec fn as_i64(x: int) -> int {
    if x > i64::MAX {
        x - 0x1_0000_0000_0000_0000
    } else {
        x
    }
}

proof fn lemma_cast_i64(x: u64)
    ensures
        (x as i64) as int == as_i64(x as int),
{
    assert(x > 0x7fff_ffff_ffff_ffffu64 ==> (x as i64) as int == x - 0x1_0000_0000_0000_0000int)
        by (bit_vector);
    assert(x <= 0x7fff_ffff_ffff_ffffu64 ==> (x as i64) as int == x as int) by (bit_vector);
}

/// How far the context grew from the assistant entry `i` to the next one.
pub open spec fn ctx_growth(es: Seq<Option<JsonModel>>, i: int) -> int {
    as_i64(next_ctx(es, i)) - as_i64(usage_ctx(es[i]->0))
}

/// The growth recorded for each call of entry `i`.
pub open spec fn entry_growth(es: Seq<Option<JsonModel>>, i: int) -> Seq<(Seq<char>, int)> {
    let c = entry_calls(es[i]);
    Seq::new(c.len(), |k: int| (c[k].0, ctx_growth(es, i)))
}

/// The growth recorded for the calls of the first `n` entries.
pub open spec fn growth_upto(es: Seq<Option<JsonModel>>, n: int) -> Seq<(Seq<char>, int)>
    decreases n,
{
    if n <= 0 {
        Seq::empty()
    } else {
        growth_upto(es, n - 1) + entry_growth(es, n - 1)
    }
}

/// Every entry with calls has a context growth that fits an `i64`.
pub open spec fn growth_fits(es: Seq<Option<JsonModel>>) -> bool {
    forall|i: int|
        0 <= i < es.len() && #[trigger] entry_calls(es[i]).len() > 0 ==> i64::MIN <= ctx_growth(es, i)
            <= i64::MAX
}

/// The models of recorded growths.
pub open spec fn growth_model(v: Seq<(String, i64)>) -> Seq<(Seq<char>, int)> {
    Seq::new(v.len(), |k: int| (v[k].0@, v[k].1 as int))
}

/// The context size of the first assistant entry after entry `i`.
fn next_ctx_exec(entries: &Vec<Option<Json>>, i: usize) -> (r: u64)
    requires
        i < entries.len(),
        ctx_fits(entries_of(entries@)),
    ensures
        r == next_ctx(entries_of(entries@), i as int),
{
    let ghost es = entries_of(entries@);
    let mut j = i + 1;
    while j < entries.len()
        invariant
            i < j <= entries.len(),
            es == entries_of(entries@),
            ctx_fits(es),
            next_ctx(es, i as int) == next_ctx(es, j - 1),
        decreases entries.len() - j,
    {
        match &entries[j] {
            Some(e) => {
                proof {
                    assert(es[j as int] == Some(e@));
                }
                if type_is(e, "assistant") {
                    match usage_ctx_exec(e) {
                        Ok(n) => return n,
                        Err(_) => {
                            proof {
                                assert(es[j as int] is Some && has_type(es[j as int]->0, "assistant"@));
                            }
                            return 0;
                        },
                    }
                }
            },
            None => {},
        }
        j = j + 1;
    }
    0
}

/// The second pass: for the calls of each assistant entry, how much the
/// context grew until the next assistant entry.
fn collect_growth(entries: &Vec<Option<Json>>) -> (r: Result<Vec<(String, i64)>, Overflow>)
    requires
        ctx_fits(entries_of(entries@)),
    ensures
        ({
            let es = entries_of(entries@);
            match r {
                Ok(v) => growth_model(v@) == growth_upto(es, es.len() as int) && growth_fits(es),
                Err(_) => !growth_fits(es),
            }
        }),
{
    let ghost es = entries_of(entries@);
    let mut out: Vec<(String, i64)> = Vec::new();
    let mut i: usize = 0;
    proof {
        assert(growth_model(out@) =~= growth_upto(es, 0));
    }
    while i < entries.len()
        invariant
            i <= entries.len(),
            es == entries_of(entries@),
            ctx_fits(es),
            growth_model(out@) == growth_upto(es, i as int),
            forall|k: int|
                0 <= k < i && #[trigger] entry_calls(es[k]).len() > 0 ==> i64::MIN <= ctx_growth(es, k)
                    <= i64::MAX,
        decreases entries.len() - i,
    {
        match &entries[i] {
            Some(e) => {
                proof {
                    assert(es[i as int] == Some(e@));
                }
                if type_is(e, "assistant") {
                    let current = match usage_ctx_exec(e) {
                        Ok(n) => n,
                        Err(_) => {
                            proof {
                                assert(es[i as int] is Some && has_type(es[i as int]->0, "assistant"@));
                            }
                            0
                        },
                    };
                    let mut here: Vec<(String, CallRecord)> = Vec::new();
                    match content_items(e) {
                        Some(items) => {
                            record_calls(items, entry_ts_exec(e), current, &mut here);
                        },
                        None => {},
                    }
                    proof {
                        assert(records_model(here@) =~= entry_calls(es[i as int]));
                    }
                    if here.len() > 0 {
                        let next = next_ctx_exec(entries, i);
                        proof {
                            lemma_cast_i64(next);
                            lemma_cast_i64(current);
                        }
                        let growth = match (next as i64).checked_sub(current as i64) {
                            Some(g) => g,
                            None => {
                                proof {
                                    assert(entry_calls(es[i as int]).len() > 0);
                                }
                                return Err(Overflow);
                            },
                        };
                        let ghost before = growth_model(out@);
                        let mut k: usize = 0;
                        while k < here.len()
                            invariant
                                k <= here.len(),
                                records_model(here@) == entry_calls(es[i as int]),
                                growth as int == ctx_growth(es, i as int),
                                growth_model(out@) == before + entry_growth(es, i as int).take(
                                    k as int,
                                ),
                            decreases here.len() - k,
                        {
                            let id = here[k].0.clone();
                            let ghost prev = growth_model(out@);
                            out.push((id, growth));
                            proof {
                                let eg = entry_growth(es, i as int);
                                assert(records_model(here@)[k as int].0 == here@[k as int].0@);
                                assert(eg[k as int] == (here@[k as int].0@, growth as int));
                                assert(growth_model(out@) =~= prev.push(
                                    (here@[k as int].0@, growth as int),
                                ));
                                assert(eg.take(k + 1) =~= eg.take(k as int).push(eg[k as int]));
                                assert(growth_model(out@) =~= before + eg.take(k + 1));
                            }
                            k = k + 1;
                        }
                        proof {
                            assert(entry_growth(es, i as int).take(here.len() as int) =~= entry_growth(
                                es,
                                i as int,
                            ));
                        }
                    } else {
                        proof {
                            assert(entry_growth(es, i as int) =~= Seq::<(Seq<char>, int)>::empty());
                            assert(growth_model(out@) =~= growth_upto(es, i + 1));
                        }
                    }
                } else {
                    proof {
                        assert(entry_growth(es, i as int) =~= Seq::<(Seq<char>, int)>::empty());
                        assert(growth_model(out@) =~= growth_upto(es, i + 1));
                    }
                }
            },
            None => {
                proof {
                    assert(entry_growth(es, i as int) =~= Seq::<(Seq<char>, int)>::empty());
                    assert(growth_model(out@) =~= growth_upto(es, i + 1));
                }
            },
        }
        i = i + 1;
    }
    Ok(out)
}

// ---------------------------------------------------------------------------
// The tool-call list
// ---------------------------------------------------------------------------

/// A timestamp, or null when empty.
pub open spec fn ts_or_null(t: Seq<char>) -> JsonModel {
    if t.len() == 0 {
        JsonModel::Null
    } else {
        JsonModel::Str(t)
    }
}

pub open spec fn opt_result(r: Option<&ResultRecord>) -> Option<ResultModel> {
    match r {
        Some(r) => Some(r@),
        None => None,
    }
}

/// The summary of one call: its id, name, input, timestamps, duration,
/// result size and error flag, and the context around it (keys in
/// serde_json's order).
pub open spec fn tool_entry(
    id: Seq<char>,
    call: CallModel,
    result: Option<ResultModel>,
    growth: Option<int>,
) -> JsonModel {
    let rts = match result {
        Some(r) => r.return_ts,
        None => Seq::empty(),
    };
    JsonModel::Object(
        seq![
            ("call_ts"@, ts_or_null(call.call_ts)),
            ("context_tokens"@, JsonModel::Number(NumberModel::PosInt(call.context_tokens as u64))),
            (
                "ctx_added"@,
                match growth {
                    Some(g) => i64_model(g as i64),
                    None => JsonModel::Null,
                },
            ),
            (
                "duration_ms"@,
                match spec_ts_diff_ms(call.call_ts, rts) {
                    Some(d) => i64_model(d),
                    None => JsonModel::Null,
                },
            ),
            ("input"@, call.input),
            (
                "is_error"@,
                JsonModel::Bool(
                    match result {
                        Some(r) => r.is_error,
                        None => false,
                    },
                ),
            ),
            ("name"@, call.name),
            (
                "result_size"@,
                match result {
                    Some(r) => JsonModel::Number(NumberModel::PosInt(r.result_size as u64)),
                    None => JsonModel::Null,
                },
            ),
            ("return_ts"@, ts_or_null(rts)),
            ("tool_use_id"@, JsonModel::Str(id)),
        ],
    )
}

/// The tool-call list of a transcript: one summary per call, in call order,
/// each built from the last call and the last result recorded under its id.
pub open spec fn spec_tools(es: Seq<Option<JsonModel>>) -> Seq<JsonModel> {
    let calls = all_calls(es);
    Seq::new(
        calls.len(),
        |k: int|
            tool_entry(
                calls[k].0,
                lookup(calls, calls[k].0)->0,
                lookup(all_results(es), calls[k].0),
                lookup(growth_upto(es, es.len() as int), calls[k].0),
            ),
    )
}

proof fn lemma_item_calls_counted(items: Seq<JsonModel>, ts: Seq<char>, ctx: int)
    ensures
        0 <= item_calls(items, ts, ctx).len() <= count_typed(items, "tool_use"@),
    decreases items.len(),
{
    if items.len() > 0 {
        lemma_item_calls_counted(items.drop_last(), ts, ctx);
    }
}

proof fn lemma_all_calls_counted(es: Seq<Option<JsonModel>>)
    ensures
        all_calls(es).len() <= total_stats(es).tool_calls,
    decreases es.len(),
{
    if es.len() > 0 {
        lemma_all_calls_counted(es.drop_last());
        match es.last() {
            Some(e) => if has_type(e, "assistant"@) {
                match content_of(e) {
                    Some(items) => lemma_item_calls_counted(items, entry_ts(e), usage_ctx(e)),
                    None => {},
                }
            },
            None => {},
        }
    }
}

/// Every tool that `parse_tools_from_lines` lists is a tool call that
/// `compute_stats_from_lines` counts: the list is never longer than the
/// count.
pub proof fn law_tools_within_tool_calls(lines: Seq<&str>)
    ensures
        spec_tools(parsed(lines)).len() <= total_stats(parsed(lines)).tool_calls,
{
    lemma_all_calls_counted(parsed(lines));
}

/// Is the block a `tool_result` answering the call `id`?
pub open spec fn answers(it: JsonModel, id: Seq<char>) -> bool {
    it.get("type"@) == Some(JsonModel::Str("tool_result"@)) && it.get("tool_use_id"@) == Some(
        JsonModel::Str(id),
    )
}

/// Is the block a `tool_use` with the id `id`?
pub open spec fn calls_with_id(it: JsonModel, id: Seq<char>) -> bool {
    it.get("type"@) == Some(JsonModel::Str("tool_use"@)) && it.get("id"@) == Some(JsonModel::Str(id))
}

/// A result record read from a block: the entry's time, an error exactly
/// when the block says `"is_error": true` (not when the member is absent or
/// anything else), and the byte size of a text content.
pub open spec fn result_read_from(r: ResultModel, it: JsonModel, ts: Seq<char>) -> bool {
    &&& r.return_ts == ts
    &&& (r.is_error <==> it.get("is_error"@) == Some(JsonModel::Bool(true)))
    &&& (it.get("content"@) matches Some(JsonModel::Str(c)) ==> r.result_size == byte_len(c))
}

/// What `item_results` records for one block, if anything.
proof fn lemma_result_block(it: JsonModel, ts: Seq<char>, id: Seq<char>)
    ensures
        answers(it, id) ==> result_id(it) == Some(id),
        result_id(it) is Some ==> answers(it, result_id(it)->0) && result_read_from(
            ResultModel {
                return_ts: ts,
                is_error: opt_bool(it.get("is_error"@)) == Some(true),
                result_size: result_size(it),
            },
            it,
            ts,
        ),
{
}

/// The results of a user entry's blocks: each record answers a call by the
/// id of a `tool_result` block and reads its error flag and size from that
/// block; each such block gives a record.
pub proof fn law_results_read_their_blocks(items: Seq<JsonModel>, ts: Seq<char>)
    ensures
        ({
            let r = item_results(items, ts);
            &&& forall|k: int|
                #![trigger r[k]]
                0 <= k < r.len() ==> exists|m: int|
                    0 <= m < items.len() && answers(#[trigger] items[m], r[k].0) && result_read_from(
                        r[k].1,
                        items[m],
                        ts,
                    )
            &&& forall|m: int, id: Seq<char>|
                0 <= m < items.len() && #[trigger] answers(items[m], id) ==> exists|k: int|
                    0 <= k < r.len() && r[k].0 == id && result_read_from(r[k].1, items[m], ts)
        }),
    decreases items.len(),
{
    if items.len() > 0 {
        let pre = items.drop_last();
        law_results_read_their_blocks(pre, ts);
        let r0 = item_results(pre, ts);
        let r = item_results(items, ts);
        let it = items.last();
        lemma_result_block(it, ts, Seq::empty());
        assert(r.len() == r0.len() || r.len() == r0.len() + 1);
        assert forall|k: int| #![trigger r[k]] 0 <= k < r.len() implies exists|m: int|
            0 <= m < items.len() && answers(#[trigger] items[m], r[k].0) && result_read_from(
                r[k].1,
                items[m],
                ts,
            ) by {
            if k < r0.len() {
                assert(r[k] == r0[k]);
                let m = choose|m: int|
                    0 <= m < pre.len() && answers(#[trigger] pre[m], r0[k].0) && result_read_from(
                        r0[k].1,
                        pre[m],
                        ts,
                    );
                assert(items[m] == pre[m]);
            } else {
                assert(items[items.len() - 1] == it);
            }
        }
        assert forall|m: int, id: Seq<char>|
            0 <= m < items.len() && #[trigger] answers(items[m], id) implies exists|k: int|
                0 <= k < r.len() && r[k].0 == id && result_read_from(r[k].1, items[m], ts) by {
            if m < pre.len() {
                assert(items[m] == pre[m]);
                assert(answers(pre[m], id));
                let k = choose|k: int| 0 <= k < r0.len() && r0[k].0 == id && result_read_from(r0[k].1, pre[m], ts);
                assert(r[k] == r0[k]);
            } else {
                lemma_result_block(it, ts, id);
                assert(r.last().0 == id);
            }
        }
    }
}

/// The calls of an assistant entry's blocks: each record is a `tool_use`
/// block's id with that block's name and input (null when absent), the
/// entry's time and context size; each `tool_use` block with an id gives a
/// record.
pub proof fn law_calls_read_their_blocks(items: Seq<JsonModel>, ts: Seq<char>, ctx: int)
    ensures
        ({
            let c = item_calls(items, ts, ctx);
            &&& forall|k: int|
                #![trigger c[k]]
                0 <= k < c.len() ==> exists|m: int|
                    0 <= m < items.len() && calls_with_id(#[trigger] items[m], c[k].0) && c[k].1
                        == CallModel {
                        name: match items[m].get("name"@) {
                            Some(v) => v,
                            None => JsonModel::Null,
                        },
                        input: match items[m].get("input"@) {
                            Some(v) => v,
                            None => JsonModel::Null,
                        },
                        call_ts: ts,
                        context_tokens: ctx,
                    }
            &&& forall|m: int, id: Seq<char>|
                0 <= m < items.len() && #[trigger] calls_with_id(items[m], id) ==> exists|k: int|
                    0 <= k < c.len() && c[k].0 == id
        }),
    decreases items.len(),
{
    if items.len() > 0 {
        let pre = items.drop_last();
        law_calls_read_their_blocks(pre, ts, ctx);
        let c0 = item_calls(pre, ts, ctx);
        let c = item_calls(items, ts, ctx);
        assert forall|k: int| #![trigger c[k]] 0 <= k < c.len() implies exists|m: int|
            0 <= m < items.len() && calls_with_id(#[trigger] items[m], c[k].0) && c[k].1 == CallModel {
                name: match items[m].get("name"@) {
                    Some(v) => v,
                    None => JsonModel::Null,
                },
                input: match items[m].get("input"@) {
                    Some(v) => v,
                    None => JsonModel::Null,
                },
                call_ts: ts,
                context_tokens: ctx,
            } by {
            if k < c0.len() {
                assert(c[k] == c0[k]);
                let m = choose|m: int|
                    0 <= m < pre.len() && calls_with_id(#[trigger] pre[m], c0[k].0) && c0[k].1 == CallModel {
                        name: match pre[m].get("name"@) {
                            Some(v) => v,
                            None => JsonModel::Null,
                        },
                        input: match pre[m].get("input"@) {
                            Some(v) => v,
                            None => JsonModel::Null,
                        },
                        call_ts: ts,
                        context_tokens: ctx,
                    };
                assert(items[m] == pre[m]);
            } else {
                assert(items[items.len() - 1] == items.last());
            }
        }
        assert forall|m: int, id: Seq<char>|
            0 <= m < items.len() && #[trigger] calls_with_id(items[m], id) implies exists|k: int|
                0 <= k < c.len() && c[k].0 == id by {
            if m < pre.len() {
                assert(items[m] == pre[m]);
                assert(calls_with_id(pre[m], id));
                let k = choose|k: int| 0 <= k < c0.len() && c0[k].0 == id;
                assert(c[k] == c0[k]);
            } else {
                assert(c.last().0 == id);
            }
        }
    }
}

// ---------------------------------------------------------------------------
// Lines that do not parse
// ---------------------------------------------------------------------------

/// The entries that parsed, in order.
pub open spec fn drop_unparsed(es: Seq<Option<JsonModel>>) -> Seq<Option<JsonModel>>
    decreases es.len(),
{
    if es.len() == 0 {
        es
    } else if es.last() is Some {
        drop_unparsed(es.drop_last()).push(es.last())
    } else {
        drop_unparsed(es.drop_last())
    }
}

/// The lines that parse as JSON, in order.
pub open spec fn json_lines(lines: Seq<&str>) -> Seq<&str>
    decreases lines.len(),
{
    if lines.len() == 0 {
        lines
    } else if spec_parse_json(lines.last()@) is Some {
        json_lines(lines.drop_last()).push(lines.last())
    } else {
        json_lines(lines.drop_last())
    }
}

proof fn lemma_calls_remove(es: Seq<Option<JsonModel>>, j: int)
    requires
        0 <= j < es.len(),
        es[j] is None,
    ensures
        all_calls(es.remove(j)) == all_calls(es),
        all_results(es.remove(j)) == all_results(es),
    decreases es.len(),
{
    let t = es.remove(j);
    if j == es.len() - 1 {
        assert(t =~= es.drop_last());
        assert(all_calls(es) =~= all_calls(es.drop_last()));
        assert(all_results(es) =~= all_results(es.drop_last()));
    } else {
        lemma_calls_remove(es.drop_last(), j);
        assert(t.drop_last() =~= es.drop_last().remove(j));
        assert(t.last() == es.last());
    }
}

/// After the removed entry, the next context is read the same.
proof fn lemma_next_ctx_after(es: Seq<Option<JsonModel>>, j: int, i: int)
    requires
        0 <= j <= i < es.len(),
        es[j] is None,
    ensures
        next_ctx(es, i) == next_ctx(es.remove(j), i - 1),
    decreases es.len() - i,
{
    let t = es.remove(j);
    if i + 1 < es.len() {
        assert(t[i] == es[i + 1]);
        if !(es[i + 1] is Some && has_type(es[i + 1]->0, "assistant"@)) {
            lemma_next_ctx_after(es, j, i + 1);
        }
    }
}

/// Before the removed entry, the next context is read the same.
proof fn lemma_next_ctx_before(es: Seq<Option<JsonModel>>, j: int, i: int)
    requires
        0 <= i < j < es.len(),
        es[j] is None,
    ensures
        next_ctx(es, i) == next_ctx(es.remove(j), i),
    decreases j - i,
{
    let t = es.remove(j);
    if i + 1 == j {
        lemma_next_ctx_after(es, j, j);
    } else {
        assert(t[i + 1] == es[i + 1]);
        if !(es[i + 1] is Some && has_type(es[i + 1]->0, "assistant"@)) {
            lemma_next_ctx_before(es, j, i + 1);
        }
    }
}

/// The index in `es.remove(j)` of entry `i` of `es`, for `i != j`.
pub open spec fn shifted(j: int, i: int) -> int {
    if i < j {
        i
    } else {
        i - 1
    }
}

proof fn lemma_growth_at(es: Seq<Option<JsonModel>>, j: int, i: int)
    requires
        0 <= i < es.len(),
        0 <= j < es.len(),
        i != j,
        es[j] is None,
    ensures
        es.remove(j)[shifted(j, i)] == es[i],
        ctx_growth(es.remove(j), shifted(j, i)) == ctx_growth(es, i),
        entry_growth(es.remove(j), shifted(j, i)) == entry_growth(es, i),
{
    let t = es.remove(j);
    if i < j {
        lemma_next_ctx_before(es, j, i);
    } else {
        lemma_next_ctx_after(es, j, i);
    }
    assert(entry_growth(t, shifted(j, i)) =~= entry_growth(es, i));
}

proof fn lemma_growth_remove(es: Seq<Option<JsonModel>>, j: int, n: int)
    requires
        0 <= j < es.len(),
        0 <= n <= es.len(),
        es[j] is None,
    ensures
        n <= j ==> growth_upto(es.remove(j), n) == growth_upto(es, n),
        n > j ==> growth_upto(es.remove(j), n - 1) == growth_upto(es, n),
    decreases n,
{
    let t = es.remove(j);
    if n > 0 {
        lemma_growth_remove(es, j, n - 1);
        if n - 1 == j {
            assert(entry_calls(es[j]).len() == 0);
            assert(growth_upto(es, n) =~= growth_upto(es, n - 1));
        } else {
            lemma_growth_at(es, j, n - 1);
            if n - 1 > j {
                assert(growth_upto(t, n - 1) == growth_upto(t, n - 2) + entry_growth(t, n - 2));
            }
        }
    }
}

#[verifier::spinoff_prover]
#[verifier::rlimit(40)]
proof fn lemma_fits_remove(es: Seq<Option<JsonModel>>, j: int)
    requires
        0 <= j < es.len(),
        es[j] is None,
    ensures
        tools_fit(es.remove(j)) == tools_fit(es),
{
    let t = es.remove(j);
    assert forall|i: int| 0 <= i < es.len() && i != j implies t[shifted(j, i)] == es[i] by {
        lemma_growth_at(es, j, i);
    }
    assert forall|k: int| 0 <= k < t.len() implies #[trigger] t[k] == es[if k < j { k } else { k + 1 }] by {}
    if ctx_fits(es) {
        assert forall|k: int|
            0 <= k < t.len() && #[trigger] t[k] is Some && has_type(t[k]->0, "assistant"@) implies usage_ctx(t[k]->0)
            <= u64::MAX by {
            let i = if k < j { k } else { k + 1 };
            assert(es[i] is Some);
        }
    }
    if ctx_fits(t) {
        assert forall|i: int|
            0 <= i < es.len() && #[trigger] es[i] is Some && has_type(es[i]->0, "assistant"@) implies usage_ctx(es[i]->0)
            <= u64::MAX by {
            assert(t[shifted(j, i)] is Some);
        }
    }
    if sizes_fit(es) {
        assert forall|k: int, m: int|
            0 <= k < t.len() && #[trigger] t[k] is Some && has_type(t[k]->0, "user"@) && content_of(t[k]->0)
                is Some && 0 <= m < content_of(t[k]->0)->0.len() && result_id(
                #[trigger] content_of(t[k]->0)->0[m],
            ) is Some implies result_size(content_of(t[k]->0)->0[m]) <= usize::MAX by {
            let i = if k < j { k } else { k + 1 };
            assert(es[i] is Some);
            assert(result_id(content_of(es[i]->0)->0[m]) is Some);
        }
    }
    if sizes_fit(t) {
        assert forall|i: int, m: int|
            0 <= i < es.len() && #[trigger] es[i] is Some && has_type(es[i]->0, "user"@) && content_of(es[i]->0)
                is Some && 0 <= m < content_of(es[i]->0)->0.len() && result_id(
                #[trigger] content_of(es[i]->0)->0[m],
            ) is Some implies result_size(content_of(es[i]->0)->0[m]) <= usize::MAX by {
            assert(t[shifted(j, i)] is Some);
            assert(result_id(content_of(t[shifted(j, i)]->0)->0[m]) is Some);
        }
    }
    if growth_fits(es) {
        assert forall|k: int|
            0 <= k < t.len() && #[trigger] entry_calls(t[k]).len() > 0 implies i64::MIN <= ctx_growth(t, k)
            <= i64::MAX by {
            let i = if k < j { k } else { k + 1 };
            lemma_growth_at(es, j, i);
            assert(entry_calls(es[i]).len() > 0);
        }
    }
    if growth_fits(t) {
        assert forall|i: int|
            0 <= i < es.len() && #[trigger] entry_calls(es[i]).len() > 0 implies i64::MIN <= ctx_growth(es, i)
            <= i64::MAX by {
            if i == j {
                assert(entry_calls(es[i]).len() == 0);
            } else {
                lemma_growth_at(es, j, i);
                assert(entry_calls(t[shifted(j, i)]).len() > 0);
            }
        }
    }
}

proof fn lemma_tools_remove(es: Seq<Option<JsonModel>>, j: int)
    requires
        0 <= j < es.len(),
        es[j] is None,
    ensures
        spec_tools(es.remove(j)) == spec_tools(es),
        tools_fit(es.remove(j)) == tools_fit(es),
{
    let t = es.remove(j);
    lemma_calls_remove(es, j);
    lemma_growth_remove(es, j, es.len() as int);
    lemma_fits_remove(es, j);
    assert(spec_tools(t) =~= spec_tools(es));
}

proof fn lemma_drop_unparsed_remove(es: Seq<Option<JsonModel>>, j: int)
    requires
        0 <= j < es.len(),
        es[j] is None,
    ensures
        drop_unparsed(es.remove(j)) == drop_unparsed(es),
    decreases es.len(),
{
    let t = es.remove(j);
    if j == es.len() - 1 {
        assert(t =~= es.drop_last());
    } else {
        lemma_drop_unparsed_remove(es.drop_last(), j);
        assert(t.drop_last() =~= es.drop_last().remove(j));
        assert(t.last() == es.last());
    }
}

proof fn lemma_drop_unparsed_none_missing(es: Seq<Option<JsonModel>>)
    requires
        forall|i: int| 0 <= i < es.len() ==> #[trigger] es[i] is Some,
    ensures
        drop_unparsed(es) == es,
    decreases es.len(),
{
    if es.len() > 0 {
        lemma_drop_unparsed_none_missing(es.drop_last());
        assert(es.drop_last().push(es.last()) =~= es);
    }
}

proof fn lemma_tools_drop_unparsed(es: Seq<Option<JsonModel>>)
    ensures
        spec_tools(drop_unparsed(es)) == spec_tools(es),
        tools_fit(drop_unparsed(es)) == tools_fit(es),
    decreases es.len(),
{
    if exists|j: int| 0 <= j < es.len() && #[trigger] es[j] is None {
        let j = choose|j: int| 0 <= j < es.len() && #[trigger] es[j] is None;
        lemma_tools_remove(es, j);
        lemma_drop_unparsed_remove(es, j);
        lemma_tools_drop_unparsed(es.remove(j));
    } else {
        lemma_drop_unparsed_none_missing(es);
    }
}

proof fn lemma_parsed_json_lines(lines: Seq<&str>)
    ensures
        parsed(json_lines(lines)) == drop_unparsed(parsed(lines)),
    decreases lines.len(),
{
    if lines.len() > 0 {
        lemma_parsed_json_lines(lines.drop_last());
        assert(parsed(lines).drop_last() =~= parsed(lines.drop_last()));
        assert(parsed(lines).last() == spec_parse_json(lines.last()@));
        if spec_parse_json(lines.last()@) is Some {
            assert(parsed(json_lines(lines.drop_last()).push(lines.last())) =~= parsed(
                json_lines(lines.drop_last()),
            ).push(spec_parse_json(lines.last()@)));
        }
    }
}

/// Lines that are not JSON do not count: `parse_tools_from_lines` gives the
/// same on the lines as on those of them that parse, kept in order; it
/// succeeds on both or on neither, with the same tools.
pub proof fn law_tools_ignore_unparsed_lines(lines: Seq<&str>)
    ensures
        spec_tools(parsed(json_lines(lines))) == spec_tools(parsed(lines)),
        tools_fit(parsed(json_lines(lines))) == tools_fit(parsed(lines)),
{
    lemma_parsed_json_lines(lines);
    lemma_tools_drop_unparsed(parsed(lines));
}

/// The transcript's sums fit their types.
pub open spec fn tools_fit(es: Seq<Option<JsonModel>>) -> bool {
    ctx_fits(es) && sizes_fit(es) && growth_fits(es)
}

fn ts_json(t: &str) -> (r: Json)
    ensures
        r@ == ts_or_null(t@),
{
    if t.unicode_len() == 0 {
        Json::Null
    } else {
        Json::Str(String::from_str(t))
    }
}

fn build_entry(id: &str, call: &CallRecord, result: Option<&ResultRecord>, growth: Option<i64>) -> (r:
    Json)
    ensures
        r@ == tool_entry(
            id@,
            call@,
            opt_result(result),
            match growth {
                Some(g) => Some(g as int),
                None => None,
            },
        ),
{
    proof {
        reveal_strlit("");
    }
    let rts: &str = match result {
        Some(r) => r.return_ts.as_str(),
        None => "",
    };
    let mut o: Vec<(String, Json)> = Vec::new();
    o.push((String::from_str("call_ts"), ts_json(call.call_ts.as_str())));
    o.push((String::from_str("context_tokens"), json_u64(call.context_tokens)));
    o.push((
        String::from_str("ctx_added"),
        match growth {
            Some(g) => json_i64(g),
            None => Json::Null,
        },
    ));
    o.push((
        String::from_str("duration_ms"),
        match ts_diff_ms(call.call_ts.as_str(), rts) {
            Some(d) => json_i64(d),
            None => Json::Null,
        },
    ));
    o.push((String::from_str("input"), call.input.deep_clone()));
    o.push((
        String::from_str("is_error"),
        Json::Bool(
            match result {
                Some(r) => r.is_error,
                None => false,
            },
        ),
    ));
    o.push((String::from_str("name"), call.name.deep_clone()));
    o.push((
        String::from_str("result_size"),
        match result {
            Some(r) => json_u64(r.result_size as u64),
            None => Json::Null,
        },
    ));
    o.push((String::from_str("return_ts"), ts_json(rts)));
    o.push((String::from_str("tool_use_id"), Json::Str(String::from_str(id))));
    proof {
        lemma_object_model(o);
        let g = match growth {
            Some(g) => Some(g as int),
            None => None,
        };
        assert(entries_model(o@) =~= tool_entry(id@, call@, opt_result(result), g)->Object_0);
    }
    Json::Object(o)
}

/// The tool calls of a transcript: one entry per `tool_use` block, in order,
/// with the matching `tool_result`'s timestamp, error flag and size, the call's
/// duration, the context size at the call and how much it grew by the next
/// assistant entry.
pub fn parse_tools_from_lines(lines: &[&str]) -> (r: Result<Vec<Json>, Overflow>)
    ensures
        ({
            let es = parsed(lines@);
            match r {
                Ok(v) => tools_fit(es) && values_model(v@) == spec_tools(es),
                Err(_) => !tools_fit(es),
            }
        }),
{
    let entries = parse_lines(lines);
    let ghost es = parsed(lines@);
    proof {
        assert(entries_of(entries@) =~= es);
    }
    let (calls, results) = collect_calls_and_results(&entries)?;
    let growth = collect_growth(&entries)?;
    let ghost cm = all_calls(es);
    let ghost rm = all_results(es);
    let ghost gm = growth_upto(es, es.len() as int);
    let mut out: Vec<Json> = Vec::new();
    let mut k: usize = 0;
    while k < calls.len()
        invariant
            k <= calls.len(),
            records_model(calls@) == cm,
            records_model(results@) == rm,
            growth_model(growth@) == gm,
            cm == all_calls(es),
            rm == all_results(es),
            gm == growth_upto(es, es.len() as int),
            values_model(out@) == spec_tools(es).take(k as int),
        decreases calls.len() - k,
    {
        let id = calls[k].0.as_str();
        proof {
            assert(key_view(calls@).len() == cm.len());
            assert(forall|j: int| 0 <= j < cm.len() ==> key_view(calls@)[j].0 == cm[j].0);
            lemma_last_index_same_keys(key_view(calls@), cm, id@);
            assert(forall|j: int| 0 <= j < rm.len() ==> key_view(results@)[j].0 == rm[j].0);
            lemma_last_index_same_keys(key_view(results@), rm, id@);
            assert(forall|j: int| 0 <= j < gm.len() ==> key_view(growth@)[j].0 == gm[j].0);
            lemma_last_index_same_keys(key_view(growth@), gm, id@);
            lemma_last_index(cm, id@);
            assert(cm[k as int].0 == id@);
        }
        let ci = match find_key(&calls, id) {
            Some(ci) => ci,
            None => {
                proof {
                    assert(false);
                }
                0
            },
        };
        let result = match find_key(&results, id) {
            Some(ri) => Some(&results[ri].1),
            None => None,
        };
        let g = match find_key(&growth, id) {
            Some(gi) => Some(growth[gi].1),
            None => None,
        };
        let entry = build_entry(id, &calls[ci].1, result, g);
        let ghost prev = values_model(out@);
        out.push(entry);
        proof {
            assert(values_model(out@) =~= prev.push(entry@));
            assert(spec_tools(es).take(k + 1) =~= spec_tools(es).take(k as int).push(spec_tools(es)[k as int]));
            assert(lookup(cm, id@)->0 == calls@[ci as int].1@);
        }
        k = k + 1;
    }
    proof {
        assert(spec_tools(es).take(calls.len() as int) =~= spec_tools(es));
    }
    Ok(out)
}

// ---------------------------------------------------------------------------
// The last turn
// ---------------------------------------------------------------------------

/// The indices of the entries that end a turn, in order.
pub open spec fn turn_ends(es: Seq<Option<JsonModel>>) -> Seq<int>
    decreases es.len(),
{
    if es.len() == 0 {
        Seq::empty()
    } else {
        let rest = turn_ends(es.drop_last());
        if es.last() is Some && is_turn_duration(es.last()->0) {
            rest.push(es.len() - 1)
        } else {
            rest
        }
    }
}

/// The lines of the last complete turn: between the last two turn ends
/// (exclusive), from the start to the only turn end, or everything when no
/// turn has ended.
pub open spec fn last_turn_range(es: Seq<Option<JsonModel>>) -> (int, int) {
    let ends = turn_ends(es);
    if ends.len() == 0 {
        (0, es.len() as int)
    } else if ends.len() == 1 {
        (0, ends[0])
    } else {
        (ends[ends.len() - 2] + 1, ends[ends.len() - 1])
    }
}

/// The tool calls of the last complete turn of a transcript.
pub fn extract_last_turn_tools(lines: &[&str]) -> (r: Result<Vec<Json>, Overflow>)
    ensures
        ({
            let es = parsed(lines@);
            let (start, end) = last_turn_range(es);
            let turn = es.subrange(start, end);
            &&& 0 <= start <= end <= es.len()
            &&& match r {
                Ok(v) => tools_fit(turn) && values_model(v@) == spec_tools(turn),
                Err(_) => !tools_fit(turn),
            }
        }),
{
    let ghost es = parsed(lines@);
    let mut ends: Vec<usize> = Vec::new();
    let mut i: usize = 0;
    while i < lines.len()
        invariant
            i <= lines.len(),
            es == parsed(lines@),
            ends@.len() == turn_ends(es.take(i as int)).len(),
            forall|j: int| 0 <= j < ends@.len() ==> ends@[j] as int == turn_ends(es.take(i as int))[j],
            forall|j: int| 0 <= j < ends@.len() ==> ends@[j] < i,
            forall|j: int, k: int| 0 <= j < k < ends@.len() ==> ends@[j] < ends@[k],
        decreases lines.len() - i,
    {
        proof {
            assert(es.take(i + 1).drop_last() =~= es.take(i as int));
        }
        match parse_json(lines[i]) {
            Some(e) => {
                if is_turn_duration_json(&e) {
                    ends.push(i);
                }
            },
            None => {},
        }
        i = i + 1;
    }
    proof {
        assert(es.take(lines.len() as int) =~= es);
    }
    let n = ends.len();
    let (start, end) = if n == 0 {
        (0, lines.len())
    } else if n == 1 {
        (0, ends[0])
    } else {
        (ends[n - 2] + 1, ends[n - 1])
    };
    let turn = &lines[start..end];
    proof {
        assert(parsed(turn@) =~= es.subrange(start as int, end as int));
    }
    parse_tools_from_lines(turn)
}

fn is_turn_duration_json(e: &Json) -> (r: bool)
    ensures
        r == is_turn_duration(e@),
{
    type_is(e, "system") && match str_member(e, "subtype") {
        Some(t) => str_eq(t, "turn_duration"),
        None => false,
    }
}

} // verus!

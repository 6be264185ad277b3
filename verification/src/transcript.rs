//! Transcript analysis: statistics, tool calls and turn data read from the
//! lines of the wrapped CLI's transcript (one JSON entry per line), and lookups
//! in xclaude's own event log.
//!
//! Lines that are not valid JSON are skipped. Sums that would exceed their
//! integer type are reported as `Overflow`.

use vstd::prelude::*;
use crate::json::{
    opt_array, opt_bool, opt_get, opt_json_model, opt_model, opt_str, opt_u64, str_eq, u64_or_zero,
    values_model, entries_model, lemma_object_model, Json, JsonModel, JsonNumber, NumberModel,
};
use crate::json_text::{parse_json, spec_parse_json};

verus! {

/// A sum exceeded the integer type that holds it.
#[derive(Debug, Clone, Copy, PartialEq, Eq, Structural)]
pub struct Overflow;

// ---------------------------------------------------------------------------
// Reading entries
// ---------------------------------------------------------------------------

/// The entries of a transcript: each line as serde_json reads it.
pub open spec fn parsed(lines: Seq<&str>) -> Seq<Option<JsonModel>> {
    Seq::new(lines.len(), |i: int| spec_parse_json(lines[i]@))
}

/// Does the value's `type` member read `t`?
pub open spec fn has_type(e: JsonModel, t: Seq<char>) -> bool {
    opt_str(e.get("type"@)) == Some(t)
}

/// `entry.message.usage`.
pub open spec fn usage_of(e: JsonModel) -> Option<JsonModel> {
    opt_get(e.get("message"@), "usage"@)
}

/// `entry.message.content`, when it is an array.
pub open spec fn content_of(e: JsonModel) -> Option<Seq<JsonModel>> {
    opt_array(opt_get(e.get("message"@), "content"@))
}

/// The context size an assistant entry reports: input, cache-creation and
/// cache-read tokens of its usage, or 0 without usage.
pub open spec fn usage_ctx(e: JsonModel) -> int {
    match usage_of(e) {
        Some(u) => u64_or_zero(u.get("input_tokens"@)) + u64_or_zero(
            u.get("cache_creation_input_tokens"@),
        ) + u64_or_zero(u.get("cache_read_input_tokens"@)),
        None => 0,
    }
}

/// Reads every line.
pub(crate) fn parse_lines(lines: &[&str]) -> (r: Vec<Option<Json>>)
    ensures
        r.len() == lines.len(),
        forall|i: int| 0 <= i < lines.len() ==> opt_json_model(#[trigger] r@[i]) == parsed(lines@)[i],
{
    let mut r: Vec<Option<Json>> = Vec::new();
    let mut i: usize = 0;
    while i < lines.len()
        invariant
            i <= lines.len(),
            r.len() == i,
            forall|j: int| 0 <= j < i ==> opt_json_model(#[trigger] r@[j]) == parsed(lines@)[j],
        decreases lines.len() - i,
    {
        r.push(parse_json(lines[i]));
        i = i + 1;
    }
    r
}

/// The models of parsed entries.
pub open spec fn entries_of(v: Seq<Option<Json>>) -> Seq<Option<JsonModel>> {
    Seq::new(v.len(), |i: int| opt_json_model(v[i]))
}

fn get_in<'a>(v: &'a Json, a: &str, b: &str) -> (r: Option<&'a Json>)
    ensures
        opt_model(r) == opt_get(v@.get(a@), b@),
{
    match v.get(a) {
        Some(m) => m.get(b),
        None => None,
    }
}

fn has_type_exec(v: &Json, t: &str) -> (r: bool)
    ensures
        r == has_type(v@, t@),
{
    match v.get("type") {
        Some(x) => match x.as_str() {
            Some(s) => str_eq(s, t),
            None => false,
        },
        None => false,
    }
}

fn u64_member_or_zero(v: &Json, k: &str) -> (r: u64)
    ensures
        r == u64_or_zero(v@.get(k@)),
{
    match v.get(k) {
        Some(x) => match x.as_u64() {
            Some(n) => n,
            None => 0,
        },
        None => 0,
    }
}

fn content_items(v: &Json) -> (r: Option<&Vec<Json>>)
    ensures
        match r {
            Some(a) => content_of(v@) == Some(values_model(a@)),
            None => content_of(v@) is None,
        },
{
    match get_in(v, "message", "content") {
        Some(c) => c.as_array(),
        None => None,
    }
}

// ---------------------------------------------------------------------------
// Statistics
// ---------------------------------------------------------------------------

/// Counts of a transcript, without the rates derived from them.
#[derive(Debug, Clone, Copy, PartialEq, Eq, Structural)]
pub struct TranscriptStats {
    pub tool_calls: usize,
    pub errors: usize,
    pub output_tokens: u64,
    pub cache_creation: u64,
    pub cache_read: u64,
}

/// The exact totals of a transcript, as mathematical integers.
pub struct StatsModel {
    pub tool_calls: int,
    pub errors: int,
    pub output_tokens: int,
    pub cache_creation: int,
    pub cache_read: int,
}

/// How many items have the given type.
pub open spec fn count_typed(items: Seq<JsonModel>, t: Seq<char>) -> int
    decreases items.len(),
{
    if items.len() == 0 {
        0
    } else {
        count_typed(items.drop_last(), t) + if has_type(items.last(), t) {
            1int
        } else {
            0int
        }
    }
}

/// How many items are tool results flagged `is_error: true`.
pub open spec fn count_error_results(items: Seq<JsonModel>) -> int
    decreases items.len(),
{
    if items.len() == 0 {
        0
    } else {
        count_error_results(items.drop_last()) + if has_type(items.last(), "tool_result"@)
            && opt_bool(items.last().get("is_error"@)) == Some(true) {
            1int
        } else {
            0int
        }
    }
}

/// What one entry adds to the totals: an assistant entry its tool uses and
/// token usage, a user entry its failed tool results.
pub open spec fn entry_stats(e: Option<JsonModel>) -> StatsModel {
    match e {
        Some(e) => if has_type(e, "assistant"@) {
            let u = usage_of(e);
            StatsModel {
                tool_calls: match content_of(e) {
                    Some(items) => count_typed(items, "tool_use"@),
                    None => 0,
                },
                errors: 0,
                output_tokens: u64_or_zero(opt_get(u, "output_tokens"@)) as int,
                cache_creation: u64_or_zero(opt_get(u, "cache_creation_input_tokens"@)) as int,
                cache_read: u64_or_zero(opt_get(u, "cache_read_input_tokens"@)) as int,
            }
        } else if has_type(e, "user"@) {
            StatsModel {
                tool_calls: 0,
                errors: match content_of(e) {
                    Some(items) => count_error_results(items),
                    None => 0,
                },
                output_tokens: 0,
                cache_creation: 0,
                cache_read: 0,
            }
        } else {
            StatsModel { tool_calls: 0, errors: 0, output_tokens: 0, cache_creation: 0, cache_read: 0 }
        },
        None => StatsModel {
            tool_calls: 0,
            errors: 0,
            output_tokens: 0,
            cache_creation: 0,
            cache_read: 0,
        },
    }
}

pub open spec fn add_stats(a: StatsModel, b: StatsModel) -> StatsModel {
    StatsModel {
        tool_calls: a.tool_calls + b.tool_calls,
        errors: a.errors + b.errors,
        output_tokens: a.output_tokens + b.output_tokens,
        cache_creation: a.cache_creation + b.cache_creation,
        cache_read: a.cache_read + b.cache_read,
    }
}

/// The totals over all entries.
pub open spec fn total_stats(entries: Seq<Option<JsonModel>>) -> StatsModel
    decreases entries.len(),
{
    if entries.len() == 0 {
        StatsModel { tool_calls: 0, errors: 0, output_tokens: 0, cache_creation: 0, cache_read: 0 }
    } else {
        add_stats(total_stats(entries.drop_last()), entry_stats(entries.last()))
    }
}

/// Totals that fit their types: the counts a `usize`, the token sums and
/// their cache total a `u64`.
pub open spec fn stats_fit(t: StatsModel) -> bool {
    &&& t.tool_calls <= usize::MAX
    &&& t.errors <= usize::MAX
    &&& t.output_tokens <= u64::MAX
    &&& t.cache_creation <= u64::MAX
    &&& t.cache_read <= u64::MAX
    &&& t.cache_creation + t.cache_read <= u64::MAX
}

pub open spec fn stats_le(a: StatsModel, b: StatsModel) -> bool {
    &&& a.tool_calls <= b.tool_calls
    &&& a.errors <= b.errors
    &&& a.output_tokens <= b.output_tokens
    &&& a.cache_creation <= b.cache_creation
    &&& a.cache_read <= b.cache_read
}

proof fn lemma_entry_stats_nonneg(e: Option<JsonModel>)
    ensures
        stats_le(
            StatsModel { tool_calls: 0, errors: 0, output_tokens: 0, cache_creation: 0, cache_read: 0 },
            entry_stats(e),
        ),
{
    if let Some(m) = e {
        if let Some(items) = content_of(m) {
            lemma_counts_nonneg(items);
        }
    }
}

proof fn lemma_counts_nonneg(items: Seq<JsonModel>)
    ensures
        count_typed(items, "tool_use"@) >= 0,
        count_error_results(items) >= 0,
        count_typed(items, "tool_use"@) <= items.len(),
        count_error_results(items) <= items.len(),
    decreases items.len(),
{
    if items.len() > 0 {
        lemma_counts_nonneg(items.drop_last());
    }
}

/// Totals over a prefix never exceed the totals over the whole.
proof fn lemma_total_stats_prefix(entries: Seq<Option<JsonModel>>, i: int)
    requires
        0 <= i <= entries.len(),
    ensures
        stats_le(total_stats(entries.take(i)), total_stats(entries)),
    decreases entries.len(),
{
    if i < entries.len() {
        lemma_total_stats_prefix(entries.drop_last(), i);
        assert(entries.drop_last().take(i) =~= entries.take(i));
        lemma_entry_stats_nonneg(entries.last());
    } else {
        assert(entries.take(i) =~= entries);
    }
}

/// Counts tool uses and failed tool results among one entry's items.
fn count_items(items: &Vec<Json>, user: bool) -> (n: usize)
    ensures
        n == if user {
            count_error_results(values_model(items@))
        } else {
            count_typed(values_model(items@), "tool_use"@)
        },
{
    let ghost m = values_model(items@);
    let mut n: usize = 0;
    let mut j: usize = 0;
    while j < items.len()
        invariant
            j <= items.len(),
            m == values_model(items@),
            n == if user {
                count_error_results(m.take(j as int))
            } else {
                count_typed(m.take(j as int), "tool_use"@)
            },
            n <= j,
        decreases items.len() - j,
    {
        proof {
            assert(m.take(j + 1).drop_last() =~= m.take(j as int));
        }
        let it = &items[j];
        let hit = if user {
            has_type_exec(it, "tool_result") && match it.get("is_error") {
                Some(b) => b.as_bool() == Some(true),
                None => false,
            }
        } else {
            has_type_exec(it, "tool_use")
        };
        if hit {
            n = n + 1;
        }
        j = j + 1;
    }
    proof {
        assert(m.take(items.len() as int) =~= m);
    }
    n
}

/// The counts and token sums of a transcript.
pub fn compute_stats_from_lines(lines: &[&str]) -> (r: Result<TranscriptStats, Overflow>)
    ensures
        ({
            let t = total_stats(parsed(lines@));
            match r {
                Ok(s) => stats_fit(t) && s.tool_calls == t.tool_calls && s.errors == t.errors
                    && s.output_tokens == t.output_tokens && s.cache_creation == t.cache_creation
                    && s.cache_read == t.cache_read,
                Err(_) => !stats_fit(t),
            }
        }),
{
    let entries = parse_lines(lines);
    let ghost es = parsed(lines@);
    proof {
        assert(entries_of(entries@) =~= es);
    }
    let mut tool_calls: usize = 0;
    let mut errors: usize = 0;
    let mut output_tokens: u64 = 0;
    let mut cache_creation: u64 = 0;
    let mut cache_read: u64 = 0;
    let mut i: usize = 0;
    while i < entries.len()
        invariant
            i <= entries.len(),
            entries_of(entries@) == es,
            es == parsed(lines@),
            ({
                let t = total_stats(es.take(i as int));
                &&& tool_calls == t.tool_calls
                &&& errors == t.errors
                &&& output_tokens == t.output_tokens
                &&& cache_creation == t.cache_creation
                &&& cache_read == t.cache_read
            }),
        decreases entries.len() - i,
    {
        proof {
            assert(es.take(i + 1).drop_last() =~= es.take(i as int));
            assert(es.take(i + 1).last() == es[i as int]);
            lemma_total_stats_prefix(es, i + 1);
            assert(total_stats(es.take(i + 1)) == add_stats(
                total_stats(es.take(i as int)),
                entry_stats(es[i as int]),
            ));
        }
        let ghost c = entry_stats(es[i as int]);
        let ghost total = total_stats(es);
        match &entries[i] {
            Some(e) => {
                proof {
                    assert(es[i as int] == Some(e@));
                }
                if has_type_exec(e, "assistant") {
                    match get_in(e, "message", "usage") {
                        Some(u) => {
                            let o = u64_member_or_zero(u, "output_tokens");
                            let cc = u64_member_or_zero(u, "cache_creation_input_tokens");
                            let cr = u64_member_or_zero(u, "cache_read_input_tokens");
                            proof {
                                assert(c.output_tokens == o);
                                assert(c.cache_creation == cc);
                                assert(c.cache_read == cr);
                            }
                            output_tokens = match output_tokens.checked_add(o) {
                                Some(x) => x,
                                None => {
                                    proof {
                                        assert(total.output_tokens > u64::MAX);
                                    }
                                    return Err(Overflow);
                                },
                            };
                            cache_creation = match cache_creation.checked_add(cc) {
                                Some(x) => x,
                                None => {
                                    proof {
                                        assert(total.cache_creation > u64::MAX);
                                    }
                                    return Err(Overflow);
                                },
                            };
                            cache_read = match cache_read.checked_add(cr) {
                                Some(x) => x,
                                None => {
                                    proof {
                                        assert(total.cache_read > u64::MAX);
                                    }
                                    return Err(Overflow);
                                },
                            };
                        },
                        None => {
                            proof {
                                assert(c.output_tokens == 0 && c.cache_creation == 0 && c.cache_read == 0);
                            }
                        },
                    }
                    match content_items(e) {
                        Some(items) => {
                            let n = count_items(items, false);
                            proof {
                                assert(c.tool_calls == n);
                            }
                            tool_calls = match tool_calls.checked_add(n) {
                                Some(x) => x,
                                None => {
                                    proof {
                                        assert(total.tool_calls > usize::MAX);
                                    }
                                    return Err(Overflow);
                                },
                            };
                        },
                        None => {},
                    }
                } else if has_type_exec(e, "user") {
                    match content_items(e) {
                        Some(items) => {
                            let n = count_items(items, true);
                            proof {
                                assert(c.errors == n);
                            }
                            errors = match errors.checked_add(n) {
                                Some(x) => x,
                                None => {
                                    proof {
                                        assert(total.errors > usize::MAX);
                                    }
                                    return Err(Overflow);
                                },
                            };
                        },
                        None => {},
                    }
                }
            },
            None => {},
        }
        i = i + 1;
    }
    proof {
        assert(es.take(entries.len() as int) =~= es);
    }
    if cache_creation.checked_add(cache_read).is_none() {
        return Err(Overflow);
    }
    Ok(TranscriptStats { tool_calls, errors, output_tokens, cache_creation, cache_read })
}

// ---------------------------------------------------------------------------
// Turn-scoped extractors
// ---------------------------------------------------------------------------

/// Does the entry mark the end of a turn (`type: system`,
/// `subtype: turn_duration`)?
pub open spec fn is_turn_duration(e: JsonModel) -> bool {
    has_type(e, "system"@) && opt_str(e.get("subtype"@)) == Some("turn_duration"@)
}

/// The last entry that ends a turn.
pub open spec fn last_turn_duration(es: Seq<Option<JsonModel>>) -> Option<JsonModel>
    decreases es.len(),
{
    if es.len() == 0 {
        None
    } else if es.last() matches Some(e) && is_turn_duration(e) {
        es.last()
    } else {
        last_turn_duration(es.drop_last())
    }
}

fn is_turn_duration_exec(e: &Json) -> (r: bool)
    ensures
        r == is_turn_duration(e@),
{
    has_type_exec(e, "system") && match e.get("subtype") {
        Some(x) => match x.as_str() {
            Some(t) => str_eq(t, "turn_duration"),
            None => false,
        },
        None => false,
    }
}

/// The duration and message count that the last turn-duration entry reports.
pub fn extract_turn_stats(lines: &[&str]) -> (r: (Option<u64>, Option<u64>))
    ensures
        r == match last_turn_duration(parsed(lines@)) {
            Some(e) => (opt_u64(e.get("durationMs"@)), opt_u64(e.get("messageCount"@))),
            None => (None, None),
        },
{
    let ghost es = parsed(lines@);
    let mut i = lines.len();
    proof {
        assert(es.take(i as int) =~= es);
    }
    while i > 0
        invariant
            i <= lines.len(),
            es == parsed(lines@),
            last_turn_duration(es) == last_turn_duration(es.take(i as int)),
        decreases i,
    {
        proof {
            assert(es.take(i as int).drop_last() =~= es.take(i - 1));
        }
        match parse_json(lines[i - 1]) {
            Some(e) => {
                if is_turn_duration_exec(&e) {
                    let d = match e.get("durationMs") {
                        Some(x) => x.as_u64(),
                        None => None,
                    };
                    let m = match e.get("messageCount") {
                        Some(x) => x.as_u64(),
                        None => None,
                    };
                    return (d, m);
                }
            },
            None => {},
        }
        i = i - 1;
    }
    proof {
        assert(es.take(0) =~= Seq::<Option<JsonModel>>::empty());
    }
    (None, None)
}

/// The usage of the last assistant entry that reports one.
pub open spec fn last_usage(es: Seq<Option<JsonModel>>) -> Option<JsonModel>
    decreases es.len(),
{
    if es.len() == 0 {
        None
    } else if es.last() matches Some(e) && has_type(e, "assistant"@) && usage_of(e) is Some {
        usage_of(es.last()->0)
    } else {
        last_usage(es.drop_last())
    }
}

/// The usage of the last assistant entry that reports one.
pub fn extract_last_usage(lines: &[&str]) -> (r: Option<Json>)
    ensures
        opt_json_model(r) == last_usage(parsed(lines@)),
{
    let ghost es = parsed(lines@);
    let mut i = lines.len();
    proof {
        assert(es.take(i as int) =~= es);
    }
    while i > 0
        invariant
            i <= lines.len(),
            es == parsed(lines@),
            last_usage(es) == last_usage(es.take(i as int)),
        decreases i,
    {
        proof {
            assert(es.take(i as int).drop_last() =~= es.take(i - 1));
        }
        match parse_json(lines[i - 1]) {
            Some(e) => {
                if has_type_exec(&e, "assistant") {
                    match get_in(&e, "message", "usage") {
                        Some(u) => {
                            return Some(u.deep_clone());
                        },
                        None => {},
                    }
                }
            },
            None => {},
        }
        i = i - 1;
    }
    proof {
        assert(es.take(0) =~= Seq::<Option<JsonModel>>::empty());
    }
    None
}

/// Token totals over the assistant entries that report usage.
pub struct UsageTotals {
    pub found: bool,
    pub input: int,
    pub cache_creation: int,
    pub cache_read: int,
    pub output: int,
}

pub open spec fn usage_totals(es: Seq<Option<JsonModel>>) -> UsageTotals
    decreases es.len(),
{
    if es.len() == 0 {
        UsageTotals { found: false, input: 0, cache_creation: 0, cache_read: 0, output: 0 }
    } else {
        let t = usage_totals(es.drop_last());
        if es.last() is Some && has_type(es.last()->0, "assistant"@) && usage_of(es.last()->0) is Some {
            let u = usage_of(es.last()->0)->0;
            UsageTotals {
                found: true,
                input: t.input + u64_or_zero(u.get("input_tokens"@)),
                cache_creation: t.cache_creation + u64_or_zero(u.get("cache_creation_input_tokens"@)),
                cache_read: t.cache_read + u64_or_zero(u.get("cache_read_input_tokens"@)),
                output: t.output + u64_or_zero(u.get("output_tokens"@)),
            }
        } else {
            t
        }
    }
}

pub open spec fn usage_totals_fit(t: UsageTotals) -> bool {
    t.input <= u64::MAX && t.cache_creation <= u64::MAX && t.cache_read <= u64::MAX && t.output
        <= u64::MAX
}

proof fn lemma_usage_totals_prefix(es: Seq<Option<JsonModel>>, i: int)
    requires
        0 <= i <= es.len(),
    ensures
        usage_totals(es.take(i)).input <= usage_totals(es).input,
        usage_totals(es.take(i)).cache_creation <= usage_totals(es).cache_creation,
        usage_totals(es.take(i)).cache_read <= usage_totals(es).cache_read,
        usage_totals(es.take(i)).output <= usage_totals(es).output,
    decreases es.len(),
{
    if i < es.len() {
        lemma_usage_totals_prefix(es.drop_last(), i);
        assert(es.drop_last().take(i) =~= es.take(i));
    } else {
        assert(es.take(i) =~= es);
    }
}

pub(crate) proof fn lemma_usage_totals_agree(es: Seq<Option<JsonModel>>)
    ensures
        usage_totals(es).output == total_stats(es).output_tokens,
        usage_totals(es).cache_creation == total_stats(es).cache_creation,
        usage_totals(es).cache_read == total_stats(es).cache_read,
        usage_totals(es).found <==> last_usage(es) is Some,
    decreases es.len(),
{
    if es.len() > 0 {
        lemma_usage_totals_agree(es.drop_last());
    }
}

/// The session's token totals agree with its statistics: the output,
/// cache-creation and cache-read tokens that `extract_total_usage` sums are
/// those that `compute_stats_from_lines` counts, and there is a total
/// exactly when `extract_last_usage` finds a usage.
pub proof fn law_usage_totals_agree_with_stats(lines: Seq<&str>)
    ensures
        ({
            let es = parsed(lines);
            &&& usage_totals(es).output == total_stats(es).output_tokens
            &&& usage_totals(es).cache_creation == total_stats(es).cache_creation
            &&& usage_totals(es).cache_read == total_stats(es).cache_read
            &&& (usage_totals(es).found <==> last_usage(es) is Some)
        }),
{
    lemma_usage_totals_agree(parsed(lines));
}

/// A JSON number from a `u64`, as `json!(n)` makes it.
pub fn json_u64(n: u64) -> (r: Json)
    ensures
        r@ == JsonModel::Number(NumberModel::PosInt(n)),
{
    Json::Number(JsonNumber::PosInt(n))
}

/// A JSON number from an `i64`, as `json!(n)` makes it.
pub open spec fn i64_model(n: i64) -> JsonModel {
    if n < 0 {
        JsonModel::Number(NumberModel::NegInt(n))
    } else {
        JsonModel::Number(NumberModel::PosInt(n as u64))
    }
}

pub fn json_i64(n: i64) -> (r: Json)
    ensures
        r@ == i64_model(n),
{
    if n < 0 {
        Json::Number(JsonNumber::NegInt(n))
    } else {
        Json::Number(JsonNumber::PosInt(n as u64))
    }
}

/// The usage summary of a whole transcript.
pub open spec fn spec_total_usage_object(t: UsageTotals) -> JsonModel {
    JsonModel::Object(
        seq![
            ("cache_creation_input_tokens"@, JsonModel::Number(NumberModel::PosInt(t.cache_creation as u64))),
            ("cache_read_input_tokens"@, JsonModel::Number(NumberModel::PosInt(t.cache_read as u64))),
            ("input_tokens"@, JsonModel::Number(NumberModel::PosInt(t.input as u64))),
            ("output_tokens"@, JsonModel::Number(NumberModel::PosInt(t.output as u64))),
        ],
    )
}

/// Input, cache-creation, cache-read and output tokens summed over every
/// assistant entry that reports usage; nothing when none does.
pub fn extract_total_usage(lines: &[&str]) -> (r: Result<Option<Json>, Overflow>)
    ensures
        ({
            let t = usage_totals(parsed(lines@));
            match r {
                Ok(Some(v)) => t.found && usage_totals_fit(t) && v@ == spec_total_usage_object(t),
                Ok(None) => !t.found && usage_totals_fit(t),
                Err(_) => !usage_totals_fit(t),
            }
        }),
{
    let ghost es = parsed(lines@);
    let mut input: u64 = 0;
    let mut cache_creation: u64 = 0;
    let mut cache_read: u64 = 0;
    let mut output: u64 = 0;
    let mut found = false;
    let mut i: usize = 0;
    while i < lines.len()
        invariant
            i <= lines.len(),
            es == parsed(lines@),
            ({
                let t = usage_totals(es.take(i as int));
                &&& found == t.found
                &&& input == t.input
                &&& cache_creation == t.cache_creation
                &&& cache_read == t.cache_read
                &&& output == t.output
            }),
        decreases lines.len() - i,
    {
        proof {
            assert(es.take(i + 1).drop_last() =~= es.take(i as int));
            lemma_usage_totals_prefix(es, i + 1);
        }
        let ghost total = usage_totals(es);
        match parse_json(lines[i]) {
            Some(e) => {
                if has_type_exec(&e, "assistant") {
                    match get_in(&e, "message", "usage") {
                        Some(u) => {
                            found = true;
                            input = match input.checked_add(u64_member_or_zero(u, "input_tokens")) {
                                Some(x) => x,
                                None => return Err(Overflow),
                            };
                            cache_creation = match cache_creation.checked_add(
                                u64_member_or_zero(u, "cache_creation_input_tokens"),
                            ) {
                                Some(x) => x,
                                None => return Err(Overflow),
                            };
                            cache_read = match cache_read.checked_add(
                                u64_member_or_zero(u, "cache_read_input_tokens"),
                            ) {
                                Some(x) => x,
                                None => return Err(Overflow),
                            };
                            output = match output.checked_add(u64_member_or_zero(u, "output_tokens")) {
                                Some(x) => x,
                                None => return Err(Overflow),
                            };
                        },
                        None => {},
                    }
                }
            },
            None => {},
        }
        i = i + 1;
    }
    proof {
        assert(es.take(lines.len() as int) =~= es);
    }
    if !found {
        return Ok(None);
    }
    let mut o: Vec<(String, Json)> = Vec::new();
    o.push((String::from_str("cache_creation_input_tokens"), json_u64(cache_creation)));
    o.push((String::from_str("cache_read_input_tokens"), json_u64(cache_read)));
    o.push((String::from_str("input_tokens"), json_u64(input)));
    o.push((String::from_str("output_tokens"), json_u64(output)));
    proof {
        lemma_object_model(o);
        assert(entries_model(o@) =~= spec_total_usage_object(usage_totals(es))->Object_0);
    }
    Ok(Some(Json::Object(o)))
}

// ---------------------------------------------------------------------------
// Event-log lookups
// ---------------------------------------------------------------------------

/// Is the log entry a `SubagentStart` whose `data` member `key` reads `value`?
pub open spec fn is_subagent_start_with(e: JsonModel, key: Seq<char>, value: Seq<char>) -> bool {
    opt_str(e.get("event"@)) == Some("SubagentStart"@) && opt_str(opt_get(e.get("data"@), key))
        == Some(value)
}

fn is_subagent_start_with_exec(e: &Json, key: &str, value: &str) -> (r: bool)
    ensures
        r == is_subagent_start_with(e@, key@, value@),
{
    let ev = match e.get("event") {
        Some(x) => match x.as_str() {
            Some(t) => str_eq(t, "SubagentStart"),
            None => false,
        },
        None => false,
    };
    ev && match get_in(e, "data", key) {
        Some(x) => match x.as_str() {
            Some(t) => str_eq(t, value),
            None => false,
        },
        None => false,
    }
}

/// The first log entry recording the start of the given agent.
pub open spec fn first_agent_start(es: Seq<Option<JsonModel>>, agent_id: Seq<char>) -> Option<JsonModel>
    decreases es.len(),
{
    if es.len() == 0 {
        None
    } else {
        match first_agent_start(es.drop_last(), agent_id) {
            Some(e) => Some(e),
            None => if es.last() matches Some(e) && is_subagent_start_with(e, "agent_id"@, agent_id) {
                es.last()
            } else {
                None
            },
        }
    }
}

/// The `ts` of the first `SubagentStart` entry of the event log that names
/// the agent, if that entry has one.
pub fn find_agent_start_ts(log_lines: &[&str], agent_id: &str) -> (r: Option<String>)
    ensures
        opt_text_model(r) == match first_agent_start(parsed(log_lines@), agent_id@) {
            Some(e) => opt_str(e.get("ts"@)),
            None => None,
        },
{
    let ghost es = parsed(log_lines@);
    let mut i: usize = 0;
    while i < log_lines.len()
        invariant
            i <= log_lines.len(),
            es == parsed(log_lines@),
            first_agent_start(es.take(i as int), agent_id@) is None,
        decreases log_lines.len() - i,
    {
        proof {
            assert(es.take(i + 1).drop_last() =~= es.take(i as int));
        }
        match parse_json(log_lines[i]) {
            Some(e) => {
                if is_subagent_start_with_exec(&e, "agent_id", agent_id) {
                    proof {
                        lemma_first_agent_start_prefix(es, agent_id@, i + 1);
                    }
                    return match e.get("ts") {
                        Some(t) => match t.as_str() {
                            Some(s) => Some(String::from_str(s)),
                            None => None,
                        },
                        None => None,
                    };
                }
            },
            None => {},
        }
        i = i + 1;
    }
    proof {
        assert(es.take(log_lines.len() as int) =~= es);
    }
    None
}

proof fn lemma_first_agent_start_prefix(es: Seq<Option<JsonModel>>, agent_id: Seq<char>, i: int)
    requires
        0 <= i <= es.len(),
        first_agent_start(es.take(i), agent_id) is Some,
    ensures
        first_agent_start(es, agent_id) == first_agent_start(es.take(i), agent_id),
    decreases es.len(),
{
    if i < es.len() {
        assert(es.drop_last().take(i) =~= es.take(i));
        lemma_first_agent_start_prefix(es.drop_last(), agent_id, i);
    } else {
        assert(es.take(i) =~= es);
    }
}

pub open spec fn opt_text_model(o: Option<String>) -> Option<Seq<char>> {
    match o {
        Some(s) => Some(s@),
        None => None,
    }
}

/// How many log entries record a subagent start in the session.
pub open spec fn count_subagent_starts(es: Seq<Option<JsonModel>>, session_id: Seq<char>) -> int
    decreases es.len(),
{
    if es.len() == 0 {
        0
    } else {
        count_subagent_starts(es.drop_last(), session_id) + if es.last() matches Some(e)
            && is_subagent_start_with(e, "session_id"@, session_id) {
            1int
        } else {
            0int
        }
    }
}

/// The number of `SubagentStart` entries of the event log for the session.
pub fn count_session_subagents(log_lines: &[&str], session_id: &str) -> (r: usize)
    ensures
        r == count_subagent_starts(parsed(log_lines@), session_id@),
{
    let ghost es = parsed(log_lines@);
    let mut n: usize = 0;
    let mut i: usize = 0;
    while i < log_lines.len()
        invariant
            i <= log_lines.len(),
            es == parsed(log_lines@),
            n == count_subagent_starts(es.take(i as int), session_id@),
            n <= i,
        decreases log_lines.len() - i,
    {
        proof {
            assert(es.take(i + 1).drop_last() =~= es.take(i as int));
        }
        match parse_json(log_lines[i]) {
            Some(e) => {
                if is_subagent_start_with_exec(&e, "session_id", session_id) {
                    n = n + 1;
                }
            },
            None => {},
        }
        i = i + 1;
    }
    proof {
        assert(es.take(log_lines.len() as int) =~= es);
    }
    n
}

} // verus!

//! Enrichment of hook payloads with what the transcript says: tool calls,
//! counts and token usage, and the subagent's wall time from the event log.
//!
//! The caller reads the transcript named by `transcript_path_for` and the
//! event log, and hands their lines in. The two rates (error rate, cache hit
//! rate) are ratios of the counts returned in `Enriched::stats`; they are
//! floating-point numbers and are added by the caller.

use vstd::prelude::*;
use crate::assoc::{last_index, lemma_last_index};
use crate::json::{
    entries_model, lemma_array_model, lemma_object_model, opt_str, values_model,
    Json, JsonModel, NumberModel,
};
use crate::tool_calls::{
    extract_last_turn_tools, last_turn_range, parse_tools_from_lines, spec_tools, spec_ts_diff_ms,
    tools_fit, ts_diff_ms,
};
use crate::transcript::{
    compute_stats_from_lines, count_session_subagents, count_subagent_starts,
    extract_last_usage, extract_total_usage, extract_turn_stats, find_agent_start_ts,
    first_agent_start, i64_model, json_i64, json_u64, last_turn_duration, last_usage, parsed,
    spec_total_usage_object, stats_fit, total_stats, usage_totals, usage_totals_fit, Overflow,
    TranscriptStats,
};
use crate::hooks::text_or_empty;
use crate::json::opt_u64;

verus! {

/// The member that names the transcript to read for an event: the
/// subagent's own transcript on `SubagentStop`, the session's on `Stop` and
/// `SessionEnd`; other events read none.
pub open spec fn transcript_key(event: Seq<char>) -> Option<Seq<char>> {
    if event == "SubagentStop"@ {
        Some("agent_transcript_path"@)
    } else if event == "Stop"@ || event == "SessionEnd"@ {
        Some("transcript_path"@)
    } else {
        None
    }
}

/// The transcript path an event's payload names, if it is to be enriched.
pub open spec fn spec_transcript_path(event: Seq<char>, input: JsonModel) -> Option<Seq<char>> {
    match transcript_key(event) {
        Some(k) => opt_str(input.get(k)),
        None => None,
    }
}

/// The transcript file to read for an event, if any.
pub fn transcript_path_for(event: &str, input: &Json) -> (r: Option<String>)
    ensures
        match r {
            Some(p) => spec_transcript_path(event@, input@) == Some(p@),
            None => spec_transcript_path(event@, input@) is None,
        },
{
    let key = if crate::json::str_eq(event, "SubagentStop") {
        "agent_transcript_path"
    } else if crate::json::str_eq(event, "Stop") || crate::json::str_eq(event, "SessionEnd") {
        "transcript_path"
    } else {
        return None;
    };
    match input.get(key) {
        Some(v) => match v.as_str() {
            Some(s) => Some(String::from_str(s)),
            None => None,
        },
        None => None,
    }
}

/// `obj.insert(key, value)` on a JSON object: the value replaces that of the
/// key's entry, or is added at the end; other values are left as they are.
pub open spec fn object_insert(m: JsonModel, k: Seq<char>, v: JsonModel) -> JsonModel {
    match m {
        JsonModel::Object(es) => if last_index(es, k) >= 0 {
            JsonModel::Object(es.update(last_index(es, k), (k, v)))
        } else {
            JsonModel::Object(es.push((k, v)))
        },
        _ => m,
    }
}

fn json_insert(obj: &mut Json, key: &str, value: Json)
    ensures
        final(obj)@ == object_insert(old(obj)@, key@, value@),
{
    match obj {
        Json::Object(entries) => {
            proof {
                lemma_object_model(*entries);
            }
            let ghost em = entries_model(entries@);
            proof {
                assert(forall|j: int| 0 <= j < em.len() ==> crate::assoc::key_view(entries@)[j].0 == em[j].0);
                crate::assoc::lemma_last_index_same_keys(crate::assoc::key_view(entries@), em, key@);
                lemma_last_index(em, key@);
            }
            match crate::assoc::find_key(entries, key) {
                Some(i) => {
                    entries.set(i, (String::from_str(key), value));
                    proof {
                        lemma_object_model(*entries);
                        assert(entries_model(entries@) =~= em.update(i as int, (key@, value@)));
                    }
                },
                None => {
                    entries.push((String::from_str(key), value));
                    proof {
                        lemma_object_model(*entries);
                        assert(entries_model(entries@) =~= em.push((key@, value@)));
                    }
                },
            }
        },
        _ => {},
    }
}

/// A JSON array of values.
fn json_array(v: Vec<Json>) -> (r: Json)
    ensures
        r@ == JsonModel::Array(values_model(v@)),
{
    proof {
        lemma_array_model(v);
    }
    Json::Array(v)
}

pub open spec fn opt_i64_json(o: Option<i64>) -> JsonModel {
    match o {
        Some(n) => i64_model(n),
        None => JsonModel::Null,
    }
}

pub open spec fn u64_json(n: int) -> JsonModel {
    JsonModel::Number(NumberModel::PosInt(n as u64))
}

/// The counts and sums of a subagent's transcript, without the rates.
pub open spec fn subagent_stats_object(t: crate::transcript::StatsModel, wall: Option<i64>) -> JsonModel {
    JsonModel::Object(
        seq![
            ("cache_creation_tokens"@, u64_json(t.cache_creation)),
            ("cache_read_tokens"@, u64_json(t.cache_read)),
            ("errors"@, u64_json(t.errors)),
            ("output_tokens"@, u64_json(t.output_tokens)),
            ("tool_calls"@, u64_json(t.tool_calls)),
            ("wall_time_ms"@, opt_i64_json(wall)),
        ],
    )
}

/// The counts of a session's transcript and its number of subagents,
/// without the rates.
pub open spec fn session_stats_object(t: crate::transcript::StatsModel, subagents: int) -> JsonModel {
    JsonModel::Object(
        seq![
            ("errors"@, u64_json(t.errors)),
            ("output_tokens"@, u64_json(t.output_tokens)),
            ("subagents"@, u64_json(subagents)),
            ("tool_calls"@, u64_json(t.tool_calls)),
        ],
    )
}

/// How long the subagent has run: from its `SubagentStart` entry in the
/// event log to `now`.
pub open spec fn wall_time(input: JsonModel, log: Seq<Option<JsonModel>>, now: Seq<char>) -> Option<
    i64,
> {
    match opt_str(input.get("agent_id"@)) {
        Some(id) => match first_agent_start(log, id) {
            Some(e) => match opt_str(e.get("ts"@)) {
                Some(start) => spec_ts_diff_ms(start, now),
                None => None,
            },
            None => None,
        },
        None => None,
    }
}

/// Do the sums the enrichment of this event takes fit their types?
pub open spec fn enrich_fits(event: Seq<char>, es: Seq<Option<JsonModel>>) -> bool {
    if event == "SubagentStop"@ {
        tools_fit(es) && stats_fit(total_stats(es))
    } else if event == "Stop"@ {
        let (s, e) = last_turn_range(es);
        stats_fit(total_stats(es)) && tools_fit(es.subrange(s, e))
    } else {
        stats_fit(total_stats(es)) && usage_totals_fit(usage_totals(es))
    }
}

/// Inserts a value when there is one.
pub open spec fn insert_some(m: JsonModel, k: Seq<char>, v: Option<JsonModel>) -> JsonModel {
    match v {
        Some(v) => object_insert(m, k, v),
        None => m,
    }
}

/// The enriched payload (without the rates), for an event whose payload
/// names a transcript with the entries `es`.
pub open spec fn spec_enriched(
    event: Seq<char>,
    input: JsonModel,
    es: Seq<Option<JsonModel>>,
    log: Seq<Option<JsonModel>>,
    now: Seq<char>,
) -> JsonModel {
    let t = total_stats(es);
    if event == "SubagentStop"@ {
        object_insert(
            object_insert(input, "tools"@, JsonModel::Array(spec_tools(es))),
            "stats"@,
            subagent_stats_object(t, wall_time(input, log, now)),
        )
    } else if event == "Stop"@ {
        let (s, e) = last_turn_range(es);
        let (dur, msgs) = match last_turn_duration(es) {
            Some(d) => (opt_u64(d.get("durationMs"@)), opt_u64(d.get("messageCount"@))),
            None => (None, None),
        };
        insert_some(
            insert_some(
                object_insert(
                    insert_some(input, "usage"@, last_usage(es)),
                    "tools"@,
                    JsonModel::Array(spec_tools(es.subrange(s, e))),
                ),
                "turn_duration_ms"@,
                match dur {
                    Some(d) => Some(u64_json(d as int)),
                    None => None,
                },
            ),
            "turn_message_count"@,
            match msgs {
                Some(m) => Some(u64_json(m as int)),
                None => None,
            },
        )
    } else {
        let u = usage_totals(es);
        let sid = text_or_empty(opt_str(input.get("session_id"@)));
        object_insert(
            insert_some(
                input,
                "usage"@,
                if u.found {
                    Some(spec_total_usage_object(u))
                } else {
                    None
                },
            ),
            "stats"@,
            session_stats_object(t, count_subagent_starts(log, sid)),
        )
    }
}

/// A payload with what its transcript says added, and the transcript's
/// counts from which the caller derives the rates.
pub struct Enriched {
    pub value: Json,
    pub stats: Option<TranscriptStats>,
}

pub open spec fn stats_match(s: TranscriptStats, t: crate::transcript::StatsModel) -> bool {
    s.tool_calls == t.tool_calls && s.errors == t.errors && s.output_tokens == t.output_tokens
        && s.cache_creation == t.cache_creation && s.cache_read == t.cache_read
}

/// Enriches a hook payload. `transcript_lines` are the lines of the file
/// that `transcript_path_for` names (none when it cannot be read) and
/// `log_lines` those of the event log. Payloads of other events, and
/// payloads that name no transcript, come back unchanged.
pub fn enrich_input(
    event: &str,
    input: &Json,
    now_ts: &str,
    transcript_lines: &[&str],
    log_lines: &[&str],
) -> (r: Result<Enriched, Overflow>)
    ensures
        ({
            let es = parsed(transcript_lines@);
            let log = parsed(log_lines@);
            match spec_transcript_path(event@, input@) {
                None => r is Ok && r->Ok_0.value@ == input@ && r->Ok_0.stats is None,
                Some(_) => match r {
                    Ok(x) => enrich_fits(event@, es) && x.value@ == spec_enriched(
                        event@,
                        input@,
                        es,
                        log,
                        now_ts@,
                    ) && x.stats is Some && stats_match(x.stats->0, total_stats(es)),
                    Err(_) => !enrich_fits(event@, es),
                },
            }
        }),
{
    match transcript_path_for(event, input) {
        None => {
            return Ok(Enriched { value: input.deep_clone(), stats: None });
        },
        Some(_) => {},
    }
    let ghost es = parsed(transcript_lines@);
    if crate::json::str_eq(event, "SubagentStop") {
        let tools = parse_tools_from_lines(transcript_lines);
        let s = compute_stats_from_lines(transcript_lines);
        let (tools, s) = match (tools, s) {
            (Ok(tools), Ok(s)) => (tools, s),
            _ => return Err(Overflow),
        };
        let wall_time_ms = match input.get("agent_id") {
            Some(v) => match v.as_str() {
                Some(id) => match find_agent_start_ts(log_lines, id) {
                    Some(start) => ts_diff_ms(start.as_str(), now_ts),
                    None => None,
                },
                None => None,
            },
            None => None,
        };
        let mut out = input.deep_clone();
        json_insert(&mut out, "tools", json_array(tools));
        let mut st: Vec<(String, Json)> = Vec::new();
        st.push((String::from_str("cache_creation_tokens"), json_u64(s.cache_creation)));
        st.push((String::from_str("cache_read_tokens"), json_u64(s.cache_read)));
        st.push((String::from_str("errors"), json_u64(s.errors as u64)));
        st.push((String::from_str("output_tokens"), json_u64(s.output_tokens)));
        st.push((String::from_str("tool_calls"), json_u64(s.tool_calls as u64)));
        st.push((
            String::from_str("wall_time_ms"),
            match wall_time_ms {
                Some(w) => json_i64(w),
                None => Json::Null,
            },
        ));
        proof {
            lemma_object_model(st);
            assert(entries_model(st@) =~= subagent_stats_object(
                total_stats(es),
                wall_time(input@, parsed(log_lines@), now_ts@),
            )->Object_0);
        }
        json_insert(&mut out, "stats", Json::Object(st));
        Ok(Enriched { value: out, stats: Some(s) })
    } else if crate::json::str_eq(event, "Stop") {
        let s = match compute_stats_from_lines(transcript_lines) {
            Ok(s) => s,
            Err(e) => return Err(e),
        };
        let mut out = input.deep_clone();
        match extract_last_usage(transcript_lines) {
            Some(u) => json_insert(&mut out, "usage", u),
            None => {},
        }
        let tools = match extract_last_turn_tools(transcript_lines) {
            Ok(t) => t,
            Err(e) => return Err(e),
        };
        json_insert(&mut out, "tools", json_array(tools));
        let (dur, msg) = extract_turn_stats(transcript_lines);
        match dur {
            Some(d) => json_insert(&mut out, "turn_duration_ms", json_u64(d)),
            None => {},
        }
        match msg {
            Some(m) => json_insert(&mut out, "turn_message_count", json_u64(m)),
            None => {},
        }
        Ok(Enriched { value: out, stats: Some(s) })
    } else {
        let s = match compute_stats_from_lines(transcript_lines) {
            Ok(s) => s,
            Err(e) => return Err(e),
        };
        let session_id: &str = match input.get("session_id") {
            Some(v) => match v.as_str() {
                Some(x) => x,
                None => {
                    proof {
                        reveal_strlit("");
                    }
                    ""
                },
            },
            None => {
                proof {
                    reveal_strlit("");
                }
                ""
            },
        };
        proof {
            assert(session_id@ == text_or_empty(opt_str(input@.get("session_id"@))));
        }
        let subagents = count_session_subagents(log_lines, session_id);
        let mut out = input.deep_clone();
        match extract_total_usage(transcript_lines) {
            Ok(Some(u)) => json_insert(&mut out, "usage", u),
            Ok(None) => {},
            Err(e) => return Err(e),
        }
        let mut st: Vec<(String, Json)> = Vec::new();
        st.push((String::from_str("errors"), json_u64(s.errors as u64)));
        st.push((String::from_str("output_tokens"), json_u64(s.output_tokens)));
        st.push((String::from_str("subagents"), json_u64(subagents as u64)));
        st.push((String::from_str("tool_calls"), json_u64(s.tool_calls as u64)));
        proof {
            lemma_object_model(st);
            assert(entries_model(st@) =~= session_stats_object(
                total_stats(es),
                count_subagent_starts(parsed(log_lines@), text_or_empty(opt_str(input@.get("session_id"@)))),
            )->Object_0);
        }
        json_insert(&mut out, "stats", Json::Object(st));
        Ok(Enriched { value: out, stats: Some(s) })
    }
}


/// Reading an object after `object_insert`: the inserted key gives the new
/// value, every other key what it gave before; the result is an object.
proof fn lemma_get_after_insert(m: JsonModel, k: Seq<char>, v: JsonModel, k2: Seq<char>)
    requires
        m is Object,
    ensures
        object_insert(m, k, v) is Object,
        object_insert(m, k, v).get(k2) == if k2 == k {
            Some(v)
        } else {
            m.get(k2)
        },
{
    let es = m->Object_0;
    lemma_last_index(es, k);
    lemma_last_index(es, k2);
    let i = last_index(es, k);
    if i >= 0 {
        let es2 = es.update(i, (k, v));
        crate::assoc::lemma_last_index_same_keys(es, es2, k2);
        lemma_last_index(es2, k2);
    } else {
        let es2 = es.push((k, v));
        assert(es2.drop_last() =~= es);
        lemma_last_index(es2, k2);
    }
}

proof fn lemma_get_after_insert_some(m: JsonModel, k: Seq<char>, v: Option<JsonModel>, k2: Seq<char>)
    requires
        m is Object,
    ensures
        insert_some(m, k, v) is Object,
        insert_some(m, k, v).get(k2) == if k2 == k && v is Some {
            v
        } else {
            m.get(k2)
        },
{
    if v is Some {
        lemma_get_after_insert(m, k, v->0, k2);
    }
}

/// Reading the key of entry `i` of an object whose later entries have other
/// keys.
proof fn lemma_get_entry(es: Seq<(Seq<char>, JsonModel)>, i: int, k: Seq<char>)
    requires
        0 <= i < es.len(),
        es[i].0 == k,
        forall|j: int| i < j < es.len() ==> es[j].0 != k,
    ensures
        JsonModel::Object(es).get(k) == Some(es[i].1),
{
    crate::assoc::lemma_last_index_at(es, k, i);
}

/// The number a count is written as.
pub open spec fn count_json(n: int) -> JsonModel {
    JsonModel::Number(NumberModel::PosInt(n as u64))
}

/// A `SessionEnd` payload that names a transcript gains the session's
/// statistics: its tool calls, failed results and output tokens summed over
/// the transcript, and its subagent starts counted in the event log. Where
/// the transcript reports usage, the payload gains usage totals whose output
/// tokens are those of the statistics; otherwise its own `usage` stays. Every
/// other member of the payload is kept.
pub proof fn law_session_end_stats(
    input: JsonModel,
    es: Seq<Option<JsonModel>>,
    log: Seq<Option<JsonModel>>,
    now: Seq<char>,
)
    requires
        input is Object,
    ensures
        ({
            let v = spec_enriched("SessionEnd"@, input, es, log, now);
            let t = total_stats(es);
            let sid = text_or_empty(opt_str(input.get("session_id"@)));
            let st = v.get("stats"@);
            &&& st is Some
            &&& st->0.get("tool_calls"@) == Some(count_json(t.tool_calls))
            &&& st->0.get("errors"@) == Some(count_json(t.errors))
            &&& st->0.get("output_tokens"@) == Some(count_json(t.output_tokens))
            &&& st->0.get("subagents"@) == Some(count_json(count_subagent_starts(log, sid)))
            &&& (usage_totals(es).found ==> v.get("usage"@) is Some && v.get("usage"@)->0.get(
                "output_tokens"@,
            ) == st->0.get("output_tokens"@))
            &&& (!usage_totals(es).found ==> v.get("usage"@) == input.get("usage"@))
            &&& forall|k: Seq<char>| k != "stats"@ && k != "usage"@ ==> #[trigger] v.get(k) == input.get(k)
        }),
{
    reveal_strlit("SessionEnd");
    reveal_strlit("SubagentStop");
    reveal_strlit("Stop");
    reveal_strlit("stats");
    reveal_strlit("usage");
    assert("SessionEnd"@[1] != "SubagentStop"@[1]);
    assert("SessionEnd"@.len() != "Stop"@.len());
    assert("stats"@[0] != "usage"@[0]);
    let u = usage_totals(es);
    let uo = if u.found {
        Some(spec_total_usage_object(u))
    } else {
        None
    };
    let m1 = insert_some(input, "usage"@, uo);
    let t = total_stats(es);
    let sid = text_or_empty(opt_str(input.get("session_id"@)));
    let so = session_stats_object(t, count_subagent_starts(log, sid));
    assert(spec_enriched("SessionEnd"@, input, es, log, now) == object_insert(m1, "stats"@, so));
    lemma_get_after_insert_some(input, "usage"@, uo, "usage"@);
    lemma_get_after_insert(m1, "stats"@, so, "stats"@);
    lemma_get_after_insert(m1, "stats"@, so, "usage"@);
    crate::transcript::lemma_usage_totals_agree(es);
    reveal_strlit("tool_calls");
    reveal_strlit("errors");
    reveal_strlit("output_tokens");
    reveal_strlit("subagents");
    reveal_strlit("cache_creation_input_tokens");
    reveal_strlit("cache_read_input_tokens");
    reveal_strlit("input_tokens");
    let se = so->Object_0;
    assert("errors"@[0] != "output_tokens"@[0]);
    assert("errors"@[0] != "subagents"@[0]);
    assert("errors"@[0] != "tool_calls"@[0]);
    assert("output_tokens"@[0] != "subagents"@[0]);
    assert("output_tokens"@[0] != "tool_calls"@[0]);
    assert("subagents"@[0] != "tool_calls"@[0]);
    lemma_get_entry(se, 0, "errors"@);
    lemma_get_entry(se, 1, "output_tokens"@);
    lemma_get_entry(se, 2, "subagents"@);
    lemma_get_entry(se, 3, "tool_calls"@);
    if u.found {
        let ue = spec_total_usage_object(u)->Object_0;
        assert("output_tokens"@[0] != "cache_creation_input_tokens"@[0]);
        assert("output_tokens"@[0] != "cache_read_input_tokens"@[0]);
        assert("output_tokens"@[0] != "input_tokens"@[0]);
        lemma_get_entry(ue, 3, "output_tokens"@);
    }
    let v = spec_enriched("SessionEnd"@, input, es, log, now);
    assert(v.get("stats"@) == Some(so));
    assert(so.get("output_tokens"@) == Some(count_json(t.output_tokens)));
    assert(so.get("tool_calls"@) == Some(count_json(t.tool_calls)));
    assert forall|k: Seq<char>| k != "stats"@ && k != "usage"@ implies #[trigger] spec_enriched(
        "SessionEnd"@,
        input,
        es,
        log,
        now,
    ).get(k) == input.get(k) by {
        lemma_get_after_insert_some(input, "usage"@, uo, k);
        lemma_get_after_insert(m1, "stats"@, so, k);
    }
}

/// A `SubagentStop` payload that names a transcript gains the transcript's
/// tools and the subagent's statistics: its tool calls, failed results and
/// token sums, and the time since its start in the event log. Every other
/// member of the payload is kept.
pub proof fn law_subagent_stop_stats(
    input: JsonModel,
    es: Seq<Option<JsonModel>>,
    log: Seq<Option<JsonModel>>,
    now: Seq<char>,
)
    requires
        input is Object,
    ensures
        ({
            let v = spec_enriched("SubagentStop"@, input, es, log, now);
            let t = total_stats(es);
            let st = v.get("stats"@);
            &&& v.get("tools"@) == Some(JsonModel::Array(spec_tools(es)))
            &&& st is Some
            &&& st->0.get("tool_calls"@) == Some(count_json(t.tool_calls))
            &&& st->0.get("errors"@) == Some(count_json(t.errors))
            &&& st->0.get("output_tokens"@) == Some(count_json(t.output_tokens))
            &&& st->0.get("cache_creation_tokens"@) == Some(count_json(t.cache_creation))
            &&& st->0.get("cache_read_tokens"@) == Some(count_json(t.cache_read))
            &&& st->0.get("wall_time_ms"@) == Some(
                match wall_time(input, log, now) {
                    Some(ms) => i64_model(ms),
                    None => JsonModel::Null,
                },
            )
            &&& forall|k: Seq<char>| k != "stats"@ && k != "tools"@ ==> #[trigger] v.get(k) == input.get(k)
        }),
{
    reveal_strlit("SubagentStop");
    reveal_strlit("stats");
    reveal_strlit("tools");
    assert("stats"@[0] != "tools"@[0]);
    let t = total_stats(es);
    let m1 = object_insert(input, "tools"@, JsonModel::Array(spec_tools(es)));
    let so = subagent_stats_object(t, wall_time(input, log, now));
    assert(spec_enriched("SubagentStop"@, input, es, log, now) == object_insert(m1, "stats"@, so));
    lemma_get_after_insert(input, "tools"@, JsonModel::Array(spec_tools(es)), "tools"@);
    lemma_get_after_insert(m1, "stats"@, so, "stats"@);
    lemma_get_after_insert(m1, "stats"@, so, "tools"@);
    reveal_strlit("tool_calls");
    reveal_strlit("errors");
    reveal_strlit("output_tokens");
    reveal_strlit("cache_creation_tokens");
    reveal_strlit("cache_read_tokens");
    reveal_strlit("wall_time_ms");
    let se = so->Object_0;
    let keys = seq![
        "cache_creation_tokens"@,
        "cache_read_tokens"@,
        "errors"@,
        "output_tokens"@,
        "tool_calls"@,
        "wall_time_ms"@,
    ];
    assert(keys[0][6] != keys[1][6]);
    assert forall|a: int, b: int| 0 <= a < b < 6 implies #[trigger] keys[a] != #[trigger] keys[b] by {
        if !(a == 0 && b == 1) {
            assert(keys[a][0] != keys[b][0]);
        }
    }
    assert forall|j: int| 0 <= j < 6 implies #[trigger] se[j].0 == keys[j] by {}
    lemma_get_entry(se, 0, keys[0]);
    lemma_get_entry(se, 1, keys[1]);
    lemma_get_entry(se, 2, keys[2]);
    lemma_get_entry(se, 3, keys[3]);
    lemma_get_entry(se, 4, keys[4]);
    lemma_get_entry(se, 5, keys[5]);
    assert forall|k: Seq<char>| k != "stats"@ && k != "tools"@ implies #[trigger] spec_enriched(
        "SubagentStop"@,
        input,
        es,
        log,
        now,
    ).get(k) == input.get(k) by {
        lemma_get_after_insert(input, "tools"@, JsonModel::Array(spec_tools(es)), k);
        lemma_get_after_insert(m1, "stats"@, so, k);
    }
}

} // verus!

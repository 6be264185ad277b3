use serde_json::Value;
use xclaude::enrich::{enrich_input, transcript_path_for};
use xclaude::json::{Json, JsonNumber};
use xclaude::json_text::parse_json;
use xclaude::tool_calls::{extract_last_turn_tools, parse_tools_from_lines, ts_diff_ms};
use xclaude::transcript::{
    compute_stats_from_lines, count_session_subagents, extract_last_usage, extract_total_usage,
    extract_turn_stats, find_agent_start_ts,
};

const A1: &str = r#"{"type":"assistant","timestamp":"2026-04-01T10:00:00.000Z","message":{"usage":{"input_tokens":10,"cache_creation_input_tokens":100,"cache_read_input_tokens":1000,"output_tokens":5},"content":[{"type":"text","text":"hi"},{"type":"tool_use","id":"t1","name":"Read","input":{"file_path":"a.rs"}}]}}"#;
const U1: &str = r#"{"type":"user","timestamp":"2026-04-01T10:00:01.500Z","message":{"content":[{"type":"tool_result","tool_use_id":"t1","content":"hello","is_error":false}]}}"#;
const A2: &str = r#"{"type":"assistant","timestamp":"2026-04-01T10:00:02.000Z","message":{"usage":{"input_tokens":20,"cache_creation_input_tokens":100,"cache_read_input_tokens":1200,"output_tokens":7},"content":[{"type":"tool_use","id":"t2","name":"Bash","input":{"command":"ls"}}]}}"#;
const U2: &str = r#"{"type":"user","timestamp":"2026-04-01T10:00:03.000Z","message":{"content":[{"type":"tool_result","tool_use_id":"t2","content":[{"type":"text","text":"abc"},{"type":"text","text":"de"}],"is_error":true}]}}"#;
const TD: &str = r#"{"type":"system","subtype":"turn_duration","durationMs":3000,"messageCount":4}"#;
const BAD: &str = "not json at all";

fn tr_json(text: &str) -> Json {
    parse_json(text).expect("test JSON")
}

fn tr_value(j: &Json) -> Value {
    match j {
        Json::Null => Value::Null,
        Json::Bool(b) => Value::Bool(*b),
        Json::Number(JsonNumber::PosInt(u)) => Value::from(*u),
        Json::Number(JsonNumber::NegInt(i)) => Value::from(*i),
        Json::Number(JsonNumber::Float(s)) => serde_json::from_str(s).unwrap(),
        Json::Str(s) => Value::String(s.clone()),
        Json::Array(a) => Value::Array(a.iter().map(tr_value).collect()),
        Json::Object(o) => Value::Object(o.iter().map(|(k, v)| (k.clone(), tr_value(v))).collect()),
    }
}

fn text_value(text: &str) -> Value {
    serde_json::from_str(text).unwrap()
}

#[test]
fn stats_count_calls_errors_and_tokens() {
    let s = compute_stats_from_lines(&[A1, U1, BAD, A2, U2]).unwrap();
    assert_eq!(s.tool_calls, 2);
    assert_eq!(s.errors, 1);
    assert_eq!(s.output_tokens, 12);
    assert_eq!(s.cache_creation, 200);
    assert_eq!(s.cache_read, 2200);
    let empty = compute_stats_from_lines(&[]).unwrap();
    assert_eq!(empty.tool_calls, 0);
    assert_eq!(empty.cache_read, 0);
}

#[test]
fn stats_overflow_is_reported() {
    let big = r#"{"type":"assistant","message":{"usage":{"output_tokens":18446744073709551615}}}"#;
    assert!(compute_stats_from_lines(&[big, big]).is_err());
    assert_eq!(compute_stats_from_lines(&[big]).unwrap().output_tokens, u64::MAX);
}

#[test]
fn tools_pair_calls_with_results() {
    let tools = parse_tools_from_lines(&[A1, U1, BAD, A2, U2]).unwrap();
    assert_eq!(tools.len(), 2);
    assert_eq!(
        tr_value(&tools[0]),
        text_value(r#"{"tool_use_id":"t1","name":"Read","input":{"file_path":"a.rs"},"call_ts":"2026-04-01T10:00:00.000Z","return_ts":"2026-04-01T10:00:01.500Z","duration_ms":1500,"result_size":5,"is_error":false,"context_tokens":1110,"ctx_added":210}"#)
    );
    assert_eq!(
        tr_value(&tools[1]),
        text_value(r#"{"tool_use_id":"t2","name":"Bash","input":{"command":"ls"},"call_ts":"2026-04-01T10:00:02.000Z","return_ts":"2026-04-01T10:00:03.000Z","duration_ms":1000,"result_size":5,"is_error":true,"context_tokens":1320,"ctx_added":-1320}"#)
    );
}

#[test]
fn tool_without_result_has_nulls() {
    let a = r#"{"type":"assistant","message":{"content":[{"type":"tool_use","id":"x","name":"Grep"}]}}"#;
    let tools = parse_tools_from_lines(&[a]).unwrap();
    assert_eq!(tools.len(), 1);
    assert_eq!(
        tr_value(&tools[0]),
        text_value(r#"{"tool_use_id":"x","name":"Grep","input":null,"call_ts":null,"return_ts":null,"duration_ms":null,"result_size":null,"is_error":false,"context_tokens":0,"ctx_added":0}"#)
    );
}

#[test]
fn last_turn_tools_use_the_last_finished_turn() {
    let one = extract_last_turn_tools(&[A1, U1, TD, A2, U2]).unwrap();
    assert_eq!(one.len(), 1);
    assert_eq!(tr_value(&one[0])["tool_use_id"], Value::from("t1"));
    assert_eq!(tr_value(&one[0])["ctx_added"], Value::from(-1110));
    let two = extract_last_turn_tools(&[A1, U1, TD, A2, U2, TD]).unwrap();
    assert_eq!(two.len(), 1);
    assert_eq!(tr_value(&two[0])["tool_use_id"], Value::from("t2"));
    let none = extract_last_turn_tools(&[A1, U1, A2, U2]).unwrap();
    assert_eq!(none.len(), 2);
}

#[test]
fn turn_stats_from_last_turn_duration() {
    assert_eq!(extract_turn_stats(&[A1, TD, U1]), (Some(3000), Some(4)));
    let later = r#"{"type":"system","subtype":"turn_duration","durationMs":9}"#;
    assert_eq!(extract_turn_stats(&[TD, later]), (Some(9), None));
    assert_eq!(extract_turn_stats(&[A1, U1]), (None, None));
}

#[test]
fn usage_last_and_total() {
    let last = extract_last_usage(&[A1, U1, A2, U2]).unwrap();
    assert_eq!(
        tr_value(&last),
        text_value(r#"{"input_tokens":20,"cache_creation_input_tokens":100,"cache_read_input_tokens":1200,"output_tokens":7}"#)
    );
    assert!(extract_last_usage(&[U1, BAD]).is_none());
    let total = extract_total_usage(&[A1, U1, A2, U2]).unwrap().unwrap();
    assert_eq!(
        tr_value(&total),
        text_value(r#"{"input_tokens":30,"cache_creation_input_tokens":200,"cache_read_input_tokens":2200,"output_tokens":12}"#)
    );
    assert!(extract_total_usage(&[U1]).unwrap().is_none());
}

#[test]
fn log_lookups_for_subagents() {
    let l1 = r#"{"ts":"2026-04-01T10:00:00+00:00","event":"SubagentStart","data":{"agent_id":"ag1","session_id":"s1"}}"#;
    let l2 = r#"{"ts":"2026-04-01T10:00:05+00:00","event":"SubagentStart","data":{"agent_id":"ag2","session_id":"s1"}}"#;
    let l3 = r#"{"ts":"2026-04-01T10:00:06+00:00","event":"PreToolUse","data":{"agent_id":"ag3","session_id":"s1"}}"#;
    let l4 = r#"{"ts":"x","event":"SubagentStart","data":{"agent_id":"ag4","session_id":"s2"}}"#;
    let log = [l1, BAD, l2, l3, l4];
    assert_eq!(find_agent_start_ts(&log, "ag2"), Some("2026-04-01T10:00:05+00:00".to_string()));
    assert_eq!(find_agent_start_ts(&log, "ag3"), None);
    assert_eq!(count_session_subagents(&log, "s1"), 2);
    assert_eq!(count_session_subagents(&log, "s2"), 1);
    assert_eq!(count_session_subagents(&log, "s9"), 0);
}

#[test]
fn timestamp_differences() {
    assert_eq!(ts_diff_ms("2026-04-01T10:00:00.000Z", "2026-04-01T10:00:01.500Z"), Some(1500));
    assert_eq!(ts_diff_ms("2026-04-01T10:00:01Z", "2026-04-01T10:00:00Z"), Some(-1000));
    assert_eq!(ts_diff_ms("2026-04-01T12:00:00+02:00", "2026-04-01T10:00:00Z"), Some(0));
    assert_eq!(ts_diff_ms("", "2026-04-01T10:00:00Z"), None);
    assert_eq!(ts_diff_ms("yesterday", "2026-04-01T10:00:00Z"), None);
}

#[test]
fn transcript_paths_by_event() {
    let p = tr_json(r#"{"transcript_path":"/t.jsonl","agent_transcript_path":"/a.jsonl"}"#);
    assert_eq!(transcript_path_for("Stop", &p), Some("/t.jsonl".to_string()));
    assert_eq!(transcript_path_for("SessionEnd", &p), Some("/t.jsonl".to_string()));
    assert_eq!(transcript_path_for("SubagentStop", &p), Some("/a.jsonl".to_string()));
    assert_eq!(transcript_path_for("PreToolUse", &p), None);
}

#[test]
fn enrich_leaves_other_events_alone() {
    let p = tr_json(r#"{"session_id":"s1","transcript_path":"/t.jsonl"}"#);
    let e = enrich_input("PreToolUse", &p, "now", &[A1], &[]).unwrap();
    assert_eq!(tr_value(&e.value), tr_value(&p));
    assert!(e.stats.is_none());
    let q = tr_json(r#"{"session_id":"s1"}"#);
    let e = enrich_input("Stop", &q, "now", &[A1], &[]).unwrap();
    assert_eq!(tr_value(&e.value), tr_value(&q));
}

#[test]
fn enrich_stop_adds_turn_data() {
    let p = tr_json(r#"{"session_id":"s1","transcript_path":"/t.jsonl"}"#);
    let e = enrich_input("Stop", &p, "now", &[A1, U1, TD, A2, U2], &[]).unwrap();
    let v = tr_value(&e.value);
    assert_eq!(v["session_id"], Value::from("s1"));
    assert_eq!(v["usage"]["input_tokens"], Value::from(20));
    assert_eq!(v["tools"].as_array().unwrap().len(), 1);
    assert_eq!(v["tools"][0]["tool_use_id"], Value::from("t1"));
    assert_eq!(v["turn_duration_ms"], Value::from(3000));
    assert_eq!(v["turn_message_count"], Value::from(4));
    let s = e.stats.unwrap();
    assert_eq!(s.cache_read, 2200);
    assert_eq!(s.cache_creation, 200);
}

#[test]
fn enrich_subagent_stop_adds_tools_and_stats() {
    let p = tr_json(r#"{"session_id":"s1","agent_id":"ag1","agent_transcript_path":"/a.jsonl"}"#);
    let log = [r#"{"ts":"2026-04-01T10:00:00.000Z","event":"SubagentStart","data":{"agent_id":"ag1","session_id":"s1"}}"#];
    let e = enrich_input("SubagentStop", &p, "2026-04-01T10:00:04.000Z", &[A1, U1, A2, U2], &log).unwrap();
    let v = tr_value(&e.value);
    assert_eq!(v["tools"].as_array().unwrap().len(), 2);
    assert_eq!(v["stats"]["tool_calls"], Value::from(2));
    assert_eq!(v["stats"]["errors"], Value::from(1));
    assert_eq!(v["stats"]["output_tokens"], Value::from(12));
    assert_eq!(v["stats"]["cache_creation_tokens"], Value::from(200));
    assert_eq!(v["stats"]["cache_read_tokens"], Value::from(2200));
    assert_eq!(v["stats"]["wall_time_ms"], Value::from(4000));
    let e = enrich_input("SubagentStop", &p, "2026-04-01T10:00:04.000Z", &[A1], &[]).unwrap();
    assert_eq!(tr_value(&e.value)["stats"]["wall_time_ms"], Value::Null);
}

#[test]
fn enrich_session_end_adds_totals() {
    let p = tr_json(r#"{"session_id":"s1","transcript_path":"/t.jsonl"}"#);
    let log = [r#"{"ts":"x","event":"SubagentStart","data":{"agent_id":"ag1","session_id":"s1"}}"#];
    let e = enrich_input("SessionEnd", &p, "now", &[A1, U1, A2, U2], &log).unwrap();
    let v = tr_value(&e.value);
    assert_eq!(v["usage"]["output_tokens"], Value::from(12));
    assert_eq!(v["usage"]["input_tokens"], Value::from(30));
    assert_eq!(v["stats"]["subagents"], Value::from(1));
    assert_eq!(v["stats"]["tool_calls"], Value::from(2));
    assert_eq!(v["stats"]["errors"], Value::from(1));
    let e = enrich_input("SessionEnd", &p, "now", &[U1], &[]).unwrap();
    assert!(tr_value(&e.value).get("usage").is_none());
}

#[test]
fn usage_totals_agree_with_stats() {
    let lines = [A1, U1, BAD, A2, U2, TD];
    let s = compute_stats_from_lines(&lines).unwrap();
    let total = tr_value(&extract_total_usage(&lines).unwrap().unwrap());
    assert_eq!(total["output_tokens"], Value::from(s.output_tokens));
    assert_eq!(total["cache_creation_input_tokens"], Value::from(s.cache_creation));
    assert_eq!(total["cache_read_input_tokens"], Value::from(s.cache_read));
    assert!(extract_last_usage(&lines).is_some());
    let no_usage = [U1, TD];
    assert!(extract_total_usage(&no_usage).unwrap().is_none());
    assert!(extract_last_usage(&no_usage).is_none());
}

#[test]
fn listed_tools_are_counted_calls() {
    let anon = r#"{"type":"assistant","message":{"content":[{"type":"tool_use","name":"Grep"},{"type":"tool_use","id":"k","name":"Read"}]}}"#;
    let lines = [A1, U1, anon, A2, U2];
    let tools = parse_tools_from_lines(&lines).unwrap();
    let s = compute_stats_from_lines(&lines).unwrap();
    assert_eq!(tools.len(), 3);
    assert_eq!(s.tool_calls, 4);
    assert!(tools.len() <= s.tool_calls);
}

#[test]
fn overflowing_sums_are_reported_everywhere() {
    let huge = r#"{"type":"assistant","message":{"usage":{"input_tokens":18446744073709551615,"cache_creation_input_tokens":1}}}"#;
    assert!(parse_tools_from_lines(&[huge]).is_err());
    assert!(extract_last_turn_tools(&[huge]).is_err());
    assert!(extract_last_turn_tools(&[huge, TD, A1]).is_err());
    assert!(extract_last_turn_tools(&[huge, TD, A1, TD]).is_ok());
    let big = r#"{"type":"assistant","message":{"usage":{"input_tokens":18446744073709551615}}}"#;
    assert!(extract_total_usage(&[big]).unwrap().is_some());
    assert!(extract_total_usage(&[big, big]).is_err());
    let p = tr_json(r#"{"session_id":"s1","transcript_path":"/t.jsonl"}"#);
    assert!(enrich_input("SessionEnd", &p, "now", &[big, big], &[]).is_err());
    assert!(enrich_input("SessionEnd", &p, "now", &[big], &[]).is_ok());
}

#[test]
fn unparsed_lines_do_not_change_tools() {
    let with_noise = parse_tools_from_lines(&[BAD, A1, BAD, U1, "{", A2, "", U2, BAD]).unwrap();
    let clean = parse_tools_from_lines(&[A1, U1, A2, U2]).unwrap();
    assert_eq!(with_noise.len(), clean.len());
    for (a, b) in with_noise.iter().zip(clean.iter()) {
        assert_eq!(tr_value(a), tr_value(b));
    }
}

use serde_json::Value;
use xclaude::db::{db_path, input_summary, open_steps, write_db_inner, DbStep, SqlStatement, SqlValue};
use xclaude::json::{Json, JsonNumber};
use xclaude::json_text::parse_json;
use xclaude::logger::{log_dir, log_file, log_line};
use xclaude::rpc::{endpoint_from_config, rpc_payload, rpc_target, trim_start_matches, RpcTarget};
use xclaude::schemas::{json_type_name, validate_event, validate_hook};
use xclaude::status::{pad_right, status_report, tool_status_label, AgentRow, SessionRow, ToolRow};

fn rec_json(text: &str) -> Json {
    parse_json(text).expect("test JSON")
}

fn sql_param(v: &SqlValue) -> String {
    match v {
        SqlValue::Null => "NULL".to_string(),
        SqlValue::Text(s) => format!("text:{s}"),
        SqlValue::Integer(n) => format!("int:{n}"),
        SqlValue::Real(JsonNumber::PosInt(n)) => format!("real:{n}"),
        SqlValue::Real(JsonNumber::NegInt(n)) => format!("real:{n}"),
        SqlValue::Real(JsonNumber::Float(s)) => format!("real:{s}"),
    }
}

fn sql_render(s: &SqlStatement) -> (String, Vec<String>) {
    (s.sql.clone(), s.params.iter().map(sql_param).collect())
}

fn owned(v: &[&str]) -> Vec<String> {
    v.iter().map(|s| s.to_string()).collect()
}

const INSERT_SESSION: &str = "INSERT OR IGNORE INTO sessions (session_id) VALUES (?1)";

#[test]
fn database_lives_under_home() {
    assert_eq!(db_path("/home/u"), "/home/u/.xclaude/xclaude.db");
    assert_eq!(db_path("/home/u/"), "/home/u/.xclaude/xclaude.db");
}

#[test]
fn input_summaries_by_tool() {
    let bash = rec_json(r#"{"command":"ls -la"}"#);
    assert_eq!(input_summary("Bash", &bash), "ls -la".to_string());
    let read = rec_json(r#"{"file_path":"/a/b.rs"}"#);
    assert_eq!(input_summary("Read", &read), "/a/b.rs".to_string());
    assert_eq!(input_summary("Write", &read), "/a/b.rs".to_string());
    let glob = rec_json(r#"{"pattern":"*.rs"}"#);
    assert_eq!(input_summary("Glob", &glob), "*.rs".to_string());
    let glob2 = rec_json(r#"{"pattern":"*.rs","path":"src"}"#);
    assert_eq!(input_summary("Glob", &glob2), "*.rs  src".to_string());
    let agent = rec_json(r#"{"prompt":"do it"}"#);
    assert_eq!(input_summary("Agent", &agent), "[?] do it".to_string());
    let agent2 = rec_json(r#"{"subagent_type":"explore","prompt":"look"}"#);
    assert_eq!(input_summary("Agent", &agent2), "[explore] look".to_string());
    let other = rec_json(r#"{"a":1,"b":[true,null]}"#);
    assert_eq!(input_summary("WebFetch", &other), r#"{"a":1,"b":[true,null]}"#.to_string());
    assert_eq!(input_summary("Bash", &other), String::new());
}

#[test]
fn input_summary_is_cut_at_256_bytes() {
    let long = rec_json(&format!(r#"{{"command":"{}"}}"#, "x".repeat(300)));
    assert_eq!(input_summary("Bash", &long), "x".repeat(256));
    let split = rec_json(&format!(r#"{{"command":"{}é"}}"#, "x".repeat(255)));
    assert_eq!(input_summary("Bash", &split), "x".repeat(255));
    let fits = rec_json(&format!(r#"{{"command":"{}é"}}"#, "x".repeat(254)));
    assert_eq!(input_summary("Bash", &fits), format!("{}é", "x".repeat(254)));
    let wide = rec_json(&format!(r#"{{"command":"{}"}}"#, "€".repeat(100)));
    let cut = input_summary("Bash", &wide);
    assert_eq!(cut, "€".repeat(85));
    assert!(cut.len() <= 256);
}

#[test]
fn pre_tool_use_records_the_call() {
    let p = rec_json(r#"{"session_id":"s1","tool_use_id":"tu1","tool_name":"Bash","tool_input":{"command":"ls"}}"#);
    let plan = write_db_inner("PreToolUse", &p, "T");
    let got: Vec<_> = plan.iter().map(sql_render).collect();
    assert_eq!(got.len(), 2);
    assert_eq!(got[0], (INSERT_SESSION.to_string(), owned(&["text:s1"])));
    assert_eq!(
        got[1],
        (
            "INSERT OR IGNORE INTO tools (tool_use_id, session_id, agent_id, tool_name, input_summary, called_at) VALUES (?1, ?2, ?3, ?4, ?5, ?6)".to_string(),
            owned(&["text:tu1", "text:s1", "text:s1", "text:Bash", "text:ls", "text:T"])
        )
    );
    let sub = rec_json(r#"{"session_id":"s1","agent_id":"ag","tool_name":"Read"}"#);
    let plan = write_db_inner("PreToolUse", &sub, "T");
    assert_eq!(
        sql_render(&plan[1]).1,
        owned(&["NULL", "text:s1", "text:ag", "text:Read", "text:", "text:T"])
    );
}

#[test]
fn post_tool_use_records_result() {
    let p = rec_json(r#"{"tool_use_id":"tu1","tool_response":{"is_error":true,"x":1}}"#);
    let plan = write_db_inner("PostToolUse", &p, "T");
    assert_eq!(plan.len(), 1);
    assert_eq!(
        sql_render(&plan[0]),
        (
            "UPDATE tools SET returned_at=?1, result_chars=?2, is_error=?3 WHERE tool_use_id=?4".to_string(),
            owned(&["text:T", "int:23", "int:1", "text:tu1"])
        )
    );
    let q = rec_json(r#"{"tool_use_id":"tu2"}"#);
    let plan = write_db_inner("PostToolUse", &q, "T");
    assert_eq!(sql_render(&plan[0]).1, owned(&["text:T", "NULL", "int:0", "text:tu2"]));
}

#[test]
fn session_start_and_subagents() {
    let p = rec_json(r#"{"session_id":"s1","slug":"sl","cwd":"/w"}"#);
    let plan = write_db_inner("SessionStart", &p, "T");
    let got: Vec<_> = plan.iter().map(sql_render).collect();
    assert_eq!(got.len(), 3);
    assert_eq!(got[1].1, owned(&["text:sl", "NULL", "text:/w", "text:T", "text:s1"]));
    assert_eq!(got[2].1, owned(&["text:s1", "text:s1", "text:main", "text:T"]));
    let sa = rec_json(r#"{"session_id":"s1","agent_id":"ag","agent_type":"explore"}"#);
    let plan = write_db_inner("SubagentStart", &sa, "T");
    assert_eq!(sql_render(&plan[1]).1, owned(&["text:ag", "text:s1", "text:s1", "text:explore", "text:T"]));
    let none = rec_json(r#"{"session_id":"s1"}"#);
    assert_eq!(write_db_inner("SubagentStart", &none, "T").len(), 1);
    let anon = rec_json(r#"{"agent_id":"ag"}"#);
    assert_eq!(write_db_inner("SubagentStart", &anon, "T").len(), 1);
    assert_eq!(write_db_inner("Notification", &anon, "T").len(), 0);
}

#[test]
fn subagent_stop_stop_and_session_end() {
    let p = rec_json(r#"{"agent_id":"ag","stats":{"wall_time_ms":-4500,"tool_calls":2,"errors":1,"output_tokens":12,"cache_hit_rate":0.5}}"#);
    let plan = write_db_inner("SubagentStop", &p, "T");
    assert_eq!(
        sql_render(&plan[0]).1,
        owned(&["int:-4", "int:2", "int:1", "int:12", "real:0.5", "text:T", "text:ag"])
    );
    let s = rec_json(r#"{"session_id":"s1","cache_hit_rate":1}"#);
    let plan = write_db_inner("Stop", &s, "T");
    assert_eq!(sql_render(&plan[1]).1, owned(&["real:1", "text:s1"]));
    let e = rec_json(r#"{"session_id":"s1","reason":"exit","usage":{"output_tokens":9},"stats":{"subagents":2}}"#);
    let plan = write_db_inner("SessionEnd", &e, "T");
    assert_eq!(
        sql_render(&plan[1]),
        (
            "UPDATE sessions SET ended_at=?1, end_reason=?2, total_out_tokens=?3, cache_hit_rate=?4, subagent_count=?5 WHERE session_id=?6".to_string(),
            owned(&["text:T", "text:exit", "int:9", "NULL", "int:2", "text:s1"])
        )
    );
}

#[test]
fn opening_steps_migrate_old_layouts() {
    let old = open_steps(1);
    assert_eq!(old.len(), 5);
    match &old[3] {
        DbStep::SetUserVersion(v) => assert_eq!(*v, 2),
        _ => panic!("expected the version step"),
    }
    match &old[2] {
        DbStep::Batch(s) => assert!(s.contains("CREATE TABLE IF NOT EXISTS tools")),
        _ => panic!("expected the schema batch"),
    }
    let current = open_steps(2);
    assert_eq!(current.len(), 1);
    match &current[0] {
        DbStep::Batch(s) => assert_eq!(s, "PRAGMA foreign_keys=ON;"),
        _ => panic!("expected a batch"),
    }
}

fn registry() -> Json {
    rec_json(
        r#"{
        "_common": {"required": ["session_id", "hook_event_name"]},
        "PreToolUse": {
            "required": ["tool_name"],
            "properties": {
                "session_id": true,
                "hook_event_name": {"type": "string"},
                "tool_name": {"type": "string"},
                "tool_input": {"type": "object"},
                "n": {"type": "integer"}
            },
            "additionalProperties": false
        },
        "Stop": {"required": ["x", "x"]}
    }"#,
    )
}

#[test]
fn valid_payload_has_no_warnings() {
    let w = validate_event(
        &registry(),
        "PreToolUse",
        r#"{"session_id":"s","hook_event_name":"PreToolUse","tool_name":"Bash","tool_input":{},"n":3}"#,
    );
    assert!(w.is_empty());
}

#[test]
fn schema_violations_are_sorted_warnings() {
    let w = validate_event(&registry(), "PreToolUse", r#"{"tool_name":5,"zzz":2,"extra":1,"n":1.5}"#);
    assert_eq!(
        w,
        owned(&[
            "PreToolUse.tool_name: expected string, got number",
            "PreToolUse: missing common field: hook_event_name",
            "PreToolUse: missing common field: session_id",
            "PreToolUse: unknown fields: [extra, zzz]",
        ])
    );
    let w = validate_event(&registry(), "PreToolUse", "[1]");
    assert_eq!(
        w,
        owned(&[
            "PreToolUse: missing common field: hook_event_name",
            "PreToolUse: missing common field: session_id",
            "PreToolUse: missing required field: tool_name",
        ])
    );
}

#[test]
fn repeated_warnings_are_kept_once() {
    let w = validate_hook(&registry(), "Stop", r#"{"session_id":"s","hook_event_name":"Stop"}"#);
    assert_eq!(w, owned(&["Stop: missing required field: x"]));
}

#[test]
fn unknown_event_and_bad_json() {
    assert_eq!(validate_event(&registry(), "Foo", "{}"), owned(&["no schema for event: Foo"]));
    let w = validate_event(&registry(), "PreToolUse", "{");
    let err = serde_json::from_str::<Value>("{").unwrap_err().to_string();
    assert_eq!(w, vec![format!("PreToolUse: invalid JSON: {err}")]);
}

#[test]
fn type_names() {
    assert_eq!(json_type_name(&Json::Null), "null");
    assert_eq!(json_type_name(&Json::Bool(true)), "boolean");
    assert_eq!(json_type_name(&rec_json("1.5")), "number");
    assert_eq!(json_type_name(&Json::Str(String::new())), "string");
    assert_eq!(json_type_name(&Json::Array(vec![])), "array");
    assert_eq!(json_type_name(&Json::Object(vec![])), "object");
}

#[test]
fn status_report_layout() {
    let sessions = vec![SessionRow {
        session_id: "s1".to_string(),
        cwd: None,
        started_at: Some("T0".to_string()),
    }];
    let agents = vec![AgentRow {
        agent_id: "a1".to_string(),
        parent_agent_id: None,
        agent_type: Some("main".to_string()),
        started_at: None,
    }];
    let tools = vec![
        ToolRow {
            tool_name: Some("Bash".to_string()),
            agent_id: Some("a1".to_string()),
            called: Some("10:00:00".to_string()),
            finished: None,
            ctx_added: Some(-12),
            is_error: Some(1),
        },
        ToolRow {
            tool_name: None,
            agent_id: None,
            called: None,
            finished: None,
            ctx_added: None,
            is_error: Some(7),
        },
    ];
    let lines = status_report(&sessions, &agents, &tools, "/db");
    let mut expected = vec![
        "\n=== SESSIONS ===".to_string(),
        format!("{:<36} | {:<30} | {}", "SESSION ID", "DIRECTORY", "STARTED AT"),
        format!("{:-<95}", "-"),
        format!("{:<36} | {:<30} | {}", "s1", "-", "T0"),
        "\n=== AGENTS ===".to_string(),
        format!("{:<36} | {:<36} | {:<10} | {}", "AGENT ID", "PARENT ID", "TYPE", "STARTED AT"),
        format!("{:-<110}", "-"),
        format!("{:<36} | {:<36} | {:<10} | {}", "a1", "-", "main", "-"),
        "\n=== LAST 10 TOOLS ===".to_string(),
        format!(
            "{:<15} | {:<36} | {:<8} | {:<8} | {:<7} | {}",
            "TOOL", "AGENT ID", "CALLED", "FINISHED", "TOKENS", "STATUS"
        ),
        format!("{:-<95}", "-"),
    ];
    expected.push(format!(
        "{:<15} | {:<36} | {:<8} | {:<8} | {:<7} | {}",
        "Bash", "a1", "10:00:00", "-", "-12", "FAIL"
    ));
    expected.push(format!(
        "{:<15} | {:<36} | {:<8} | {:<8} | {:<7} | {}",
        "-", "-", "-", "-", "-", "-"
    ));
    expected.push("\nxclaude db saved at: /db".to_string());
    assert_eq!(lines, expected);
}

#[test]
fn padding_and_status_labels() {
    assert_eq!(pad_right("ab", 5), "ab   ");
    assert_eq!(pad_right("abcdef", 3), "abcdef");
    assert_eq!(pad_right("é", 3), format!("{:<3}", "é"));
    assert_eq!(tool_status_label(Some(0)), "pass");
    assert_eq!(tool_status_label(Some(1)), "FAIL");
    assert_eq!(tool_status_label(None), "-");
    assert_eq!(tool_status_label(Some(2)), "-");
}

#[test]
fn log_paths_and_lines() {
    assert_eq!(log_dir("/home/u"), "/home/u/.xclaude/logs");
    assert_eq!(log_file("/home/u", "2026-04-01"), "/home/u/.xclaude/logs/2026-04-01.jsonl");
    let line = log_line("2026-03-24T16:38:45+02:00", "PreToolUse", rec_json(r#"{"session_id":"abc123"}"#));
    let v: Value = serde_json::from_str(&line).unwrap();
    let expected: Value = serde_json::from_str(
        r#"{"ts":"2026-03-24T16:38:45+02:00","event":"PreToolUse","data":{"session_id":"abc123"}}"#,
    )
    .unwrap();
    assert_eq!(v, expected);
    assert!(!line.contains('\n'));
}

#[test]
fn rpc_endpoints_and_targets() {
    assert_eq!(
        endpoint_from_config(r#"{"rpc_endpoint":"unix:///tmp/x.sock"}"#),
        Some("unix:///tmp/x.sock".to_string())
    );
    assert_eq!(endpoint_from_config(r#"{"rpc_endpoint":5}"#), None);
    assert_eq!(endpoint_from_config("not json"), None);
    assert_eq!(trim_start_matches("ababc", "ab"), "c");
    assert_eq!(trim_start_matches("abc", ""), "abc");
    match rpc_target("unix://unix:///tmp/a.sock") {
        RpcTarget::Unix(p) => assert_eq!(p, "/tmp/a.sock"),
        _ => panic!("expected a unix socket"),
    }
    match rpc_target("tcp://localhost:9000") {
        RpcTarget::Tcp(a) => assert_eq!(a, "localhost:9000"),
        _ => panic!("expected tcp"),
    }
    match rpc_target("localhost:9000") {
        RpcTarget::Tcp(a) => assert_eq!(a, "localhost:9000"),
        _ => panic!("expected tcp"),
    }
    assert!(matches!(rpc_target("localhost"), RpcTarget::Unsupported));
}

#[test]
fn rpc_payload_is_a_json_rpc_notification_line() {
    let text = rpc_payload("PreToolUse", "T", rec_json(r#"{"a":1}"#));
    assert!(text.ends_with('\n'));
    assert_eq!(text.matches('\n').count(), 1);
    let v: Value = serde_json::from_str(text.trim_end()).unwrap();
    let expected: Value = serde_json::from_str(
        r#"{"jsonrpc":"2.0","method":"PreToolUse","params":{"ts":"T","data":{"a":1}}}"#,
    )
    .unwrap();
    assert_eq!(v, expected);
    assert!(v.get("id").is_none());
}

#[test]
fn hook_and_event_validation_agree() {
    let reg = registry();
    for (event, raw) in [
        ("PreToolUse", r#"{"tool_name":5,"zzz":2}"#),
        ("PreToolUse", "{"),
        ("Stop", "{}"),
        ("Nope", "{}"),
    ] {
        assert_eq!(validate_hook(&reg, event, raw), validate_event(&reg, event, raw));
    }
}

fn plan_params(s: &SqlStatement) -> Vec<rusqlite::types::Value> {
    s.params
        .iter()
        .map(|v| match v {
            SqlValue::Null => rusqlite::types::Value::Null,
            SqlValue::Text(t) => rusqlite::types::Value::Text(t.clone()),
            SqlValue::Integer(n) => rusqlite::types::Value::Integer(*n),
            SqlValue::Real(_) => rusqlite::types::Value::Null,
        })
        .collect()
}

#[test]
fn repeated_pre_tool_use_write_changes_nothing() {
    let conn = rusqlite::Connection::open_in_memory().unwrap();
    for step in open_steps(0) {
        match step {
            DbStep::Batch(sql) => conn.execute_batch(&sql).unwrap(),
            DbStep::SetUserVersion(v) => conn.pragma_update(None, "user_version", v).unwrap(),
        }
    }
    conn.execute_batch(
        "INSERT INTO sessions (session_id) VALUES ('s1'); INSERT INTO agents (agent_id, session_id) VALUES ('s1', 's1');",
    )
    .unwrap();
    let p = rec_json(r#"{"session_id":"s1","tool_use_id":"tu1","tool_name":"Bash","tool_input":{"command":"ls"}}"#);
    let plan = write_db_inner("PreToolUse", &p, "T");
    for s in &plan {
        assert!(s.sql.starts_with("INSERT OR IGNORE INTO "));
    }
    let mut seen = Vec::new();
    for _ in 0..2 {
        for s in write_db_inner("PreToolUse", &p, "T") {
            conn.execute(&s.sql, rusqlite::params_from_iter(plan_params(&s))).unwrap();
        }
        let row: (i64, String, String, String) = conn
            .query_row(
                "SELECT count(*), agent_id, tool_name, input_summary FROM tools",
                [],
                |r| Ok((r.get(0)?, r.get(1)?, r.get(2)?, r.get(3)?)),
            )
            .unwrap();
        seen.push(row);
    }
    assert_eq!(seen[0], (1, "s1".to_string(), "Bash".to_string(), "ls".to_string()));
    assert_eq!(seen[0], seen[1]);
}

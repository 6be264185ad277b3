use serde_json::Value;
use xclaude::events::{AgentStatus, ToolStatus};
use xclaude::hooks::{generate_settings, parse_tool_response, HookEvent, HookPayload, ReceiverState};
use xclaude::json::{Json, JsonNumber};
use xclaude::json_text::parse_json;

fn hook_json(text: &str) -> Json {
    parse_json(text).expect("test JSON")
}

fn hook_value(j: &Json) -> Value {
    match j {
        Json::Null => Value::Null,
        Json::Bool(b) => Value::Bool(*b),
        Json::Number(JsonNumber::PosInt(u)) => Value::from(*u),
        Json::Number(JsonNumber::NegInt(i)) => Value::from(*i),
        Json::Number(JsonNumber::Float(s)) => serde_json::from_str(s).unwrap(),
        Json::Str(s) => Value::String(s.clone()),
        Json::Array(a) => Value::Array(a.iter().map(hook_value).collect()),
        Json::Object(o) => Value::Object(o.iter().map(|(k, v)| (k.clone(), hook_value(v))).collect()),
    }
}

fn payload(event: &str, tool: Option<&str>, id: Option<&str>, input: Option<&str>, response: Option<&str>) -> HookPayload {
    HookPayload {
        session_id: Some("s1".to_string()),
        hook_event_name: Some(event.to_string()),
        tool_name: tool.map(String::from),
        tool_use_id: id.map(String::from),
        tool_input: input.map(hook_json),
        tool_response: response.map(hook_json),
        cwd: Some("/w".to_string()),
    }
}

#[test]
fn settings_register_the_four_hooks_on_the_socket() {
    let text = generate_settings("/tmp/xclaude-hook-7.sock");
    let v: Value = serde_json::from_str(&text).unwrap();
    let cmd = "python3 -c \"import socket,sys; s=socket.socket(socket.AF_UNIX); s.connect('/tmp/xclaude-hook-7.sock'); s.sendall(sys.stdin.buffer.read()); s.close()\"";
    let cmd_text = serde_json::to_string(cmd).unwrap();
    let entry = format!(r#"[{{"hooks":[{{"command":{cmd_text},"type":"command"}}],"matcher":""}}]"#);
    let expected_text = format!(
        r#"{{"hooks":{{"PostToolUse":{entry},"PreToolUse":{entry},"SubagentStart":{entry},"SubagentStop":{entry}}}}}"#
    );
    let expected: Value = serde_json::from_str(&expected_text).unwrap();
    assert_eq!(v, expected);
    assert_eq!(text, expected_text);
}

#[test]
fn tool_response_status_and_written_files() {
    let input = hook_json(r#"{"file_path":"a.rs"}"#);
    let ok = hook_json(r#"{"success":true}"#);
    let bad = hook_json(r#"{"success":false}"#);
    let (st, files) = parse_tool_response("Write", Some(&input), Some(&ok));
    assert_eq!(st, ToolStatus::Success);
    assert_eq!(files, vec!["a.rs".to_string()]);
    let (st, files) = parse_tool_response("Edit", Some(&input), Some(&bad));
    assert_eq!(st, ToolStatus::Error);
    assert_eq!(files, vec!["a.rs".to_string()]);
    let (st, files) = parse_tool_response("Read", Some(&input), None);
    assert_eq!(st, ToolStatus::Success);
    assert!(files.is_empty());
    let multi = hook_json(r#"{"file_path":"m.rs","edits":[{"old_string":"a","new_string":"b"}]}"#);
    let (st, files) = parse_tool_response("MultiEdit", Some(&multi), None);
    assert_eq!(st, ToolStatus::Success);
    assert_eq!(files, vec!["m.rs".to_string()]);
    let no_path = hook_json(r#"{"edits":[{"file_path":"x"}]}"#);
    let (_, files) = parse_tool_response("MultiEdit", Some(&no_path), None);
    assert!(files.is_empty());
    let odd = hook_json(r#"{"success":"yes"}"#);
    let (st, _) = parse_tool_response("Bash", None, Some(&odd));
    assert_eq!(st, ToolStatus::Success);
}

#[test]
fn tool_call_round_trip_in_root_agent() {
    let mut st = ReceiverState::new();
    let ev = st.handle(
        payload("PreToolUse", Some("Edit"), Some("tu1"), Some(r#"{"file_path":"a.rs"}"#), None),
        "2026-04-01T10:00:00.000Z".to_string(),
        1_000_000_000,
    );
    match ev {
        Some(HookEvent::ToolStart(n)) => {
            assert_eq!(n.method, "tool.start");
            assert_eq!(n.params.session_id, "s1");
            assert_eq!(n.params.agent_id, "s1");
            assert_eq!(n.params.tool_call_id, "tu1");
            assert_eq!(n.params.tool, "Edit");
            assert_eq!(n.params.input, r#"{"file_path":"a.rs"}"#);
            assert_eq!(n.params.timestamp, "2026-04-01T10:00:00.000Z");
        }
        _ => panic!("expected tool.start"),
    }
    let ev = st.handle(
        payload(
            "PostToolUse",
            Some("Edit"),
            Some("tu1"),
            Some(r#"{"file_path":"a.rs"}"#),
            Some(r#"{"success":true}"#),
        ),
        "2026-04-01T10:00:00.250Z".to_string(),
        1_250_000_000,
    );
    match ev {
        Some(HookEvent::ToolEnd(n)) => {
            assert_eq!(n.method, "tool.end");
            assert_eq!(n.params.tool_call_id, "tu1");
            assert_eq!(n.params.duration_ms, 250);
            assert_eq!(n.params.status, ToolStatus::Success);
            assert_eq!(n.params.context.files_written, vec!["a.rs".to_string()]);
        }
        _ => panic!("expected tool.end"),
    }
    // A second PostToolUse for the same id no longer has a start time.
    let ev = st.handle(
        payload("PostToolUse", Some("Edit"), Some("tu1"), None, None),
        "t".to_string(),
        9_000_000_000,
    );
    match ev {
        Some(HookEvent::ToolEnd(n)) => assert_eq!(n.params.duration_ms, 0),
        _ => panic!("expected tool.end"),
    }
}

#[test]
fn subagents_nest_and_number() {
    let mut st = ReceiverState::new();
    let ev = st.handle(payload("SubagentStart", None, None, None, None), "t0".to_string(), 0);
    match ev {
        Some(HookEvent::AgentStart(n)) => {
            assert_eq!(n.method, "agent.start");
            assert_eq!(n.params.agent_id, "s1-agent-1");
            assert_eq!(n.params.parent_agent_id, None);
            assert_eq!(n.params.context.cwd, "/w");
        }
        _ => panic!("expected agent.start"),
    }
    let ev = st.handle(payload("PreToolUse", Some("Bash"), Some("t9"), None, None), "t1".to_string(), 10);
    match ev {
        Some(HookEvent::ToolStart(n)) => {
            assert_eq!(n.params.agent_id, "s1-agent-1");
            assert_eq!(n.params.input, "");
            assert_eq!(n.params.tool, "Bash");
        }
        _ => panic!("expected tool.start"),
    }
    let ev = st.handle(payload("SubagentStart", None, None, None, None), "t2".to_string(), 2_000_000);
    match ev {
        Some(HookEvent::AgentStart(n)) => {
            assert_eq!(n.params.agent_id, "s1-agent-2");
            assert_eq!(n.params.parent_agent_id, Some("s1-agent-1".to_string()));
        }
        _ => panic!("expected agent.start"),
    }
    let ev = st.handle(payload("SubagentStop", None, None, None, None), "t3".to_string(), 7_000_000);
    match ev {
        Some(HookEvent::AgentEnd(n)) => {
            assert_eq!(n.method, "agent.end");
            assert_eq!(n.params.agent_id, "s1-agent-2");
            assert_eq!(n.params.parent_agent_id, Some("s1-agent-1".to_string()));
            assert_eq!(n.params.duration_ms, 5);
            assert_eq!(n.params.status, AgentStatus::Completed);
            assert_eq!(n.params.context.tool_calls, 0);
        }
        _ => panic!("expected agent.end"),
    }
    let ev = st.handle(payload("SubagentStop", None, None, None, None), "t4".to_string(), 9_000_000);
    match ev {
        Some(HookEvent::AgentEnd(n)) => {
            assert_eq!(n.params.agent_id, "s1-agent-1");
            assert_eq!(n.params.parent_agent_id, None);
            assert_eq!(n.params.duration_ms, 9);
        }
        _ => panic!("expected agent.end"),
    }
    // Nothing left to stop; a later subagent keeps counting.
    assert!(st.handle(payload("SubagentStop", None, None, None, None), "t5".to_string(), 0).is_none());
    match st.handle(payload("SubagentStart", None, None, None, None), "t6".to_string(), 0) {
        Some(HookEvent::AgentStart(n)) => assert_eq!(n.params.agent_id, "s1-agent-3"),
        _ => panic!("expected agent.start"),
    }
}

#[test]
fn payloads_without_session_or_known_event_are_ignored() {
    let mut st = ReceiverState::new();
    let mut p = payload("PreToolUse", Some("Bash"), Some("x"), None, None);
    p.session_id = None;
    assert!(st.handle(p, "t".to_string(), 0).is_none());
    assert!(st.handle(payload("Notification", None, None, None, None), "t".to_string(), 0).is_none());
    let mut q = payload("", None, None, None, None);
    q.hook_event_name = None;
    assert!(st.handle(q, "t".to_string(), 0).is_none());
}

#[test]
fn tool_input_is_compact_json_text() {
    let mut st = ReceiverState::new();
    let ev = st.handle(
        payload("PreToolUse", Some("Bash"), Some("t"), Some(r#"{ "command" : "ls -la", "timeout": 5 }"#), None),
        "t".to_string(),
        0,
    );
    match ev {
        Some(HookEvent::ToolStart(n)) => {
            let v: Value = serde_json::from_str(&n.params.input).unwrap();
            assert_eq!(v, hook_value(&hook_json(r#"{"command":"ls -la","timeout":5}"#)));
            assert_eq!(n.params.input, r#"{"command":"ls -la","timeout":5}"#);
        }
        _ => panic!("expected tool.start"),
    }
}

#[test]
fn agent_ends_follow_starts_across_sessions() {
    let mut st = ReceiverState::new();
    let mut starts: Vec<String> = Vec::new();
    let mut open: Vec<String> = Vec::new();
    let steps = [
        ("s1", "SubagentStart"),
        ("s2", "SubagentStart"),
        ("s1", "PreToolUse"),
        ("s2", "SubagentStop"),
        ("s1", "SubagentStart"),
        ("s1", "SubagentStop"),
        ("s1", "SubagentStop"),
        ("s1", "SubagentStop"),
    ];
    for (sid, ev) in steps {
        let mut p = payload(ev, Some("Bash"), Some("t"), None, None);
        p.session_id = Some(sid.to_string());
        match st.handle(p, "t".to_string(), 0) {
            Some(HookEvent::AgentStart(n)) => {
                assert!(!starts.contains(&n.params.agent_id));
                starts.push(n.params.agent_id.clone());
                open.push(n.params.agent_id);
            }
            Some(HookEvent::AgentEnd(n)) => {
                assert_eq!(Some(n.params.agent_id), open.pop());
            }
            Some(_) => {}
            None => assert!(open.is_empty()),
        }
    }
    assert_eq!(starts, vec!["s1-agent-1".to_string(), "s2-agent-2".to_string(), "s1-agent-3".to_string()]);
    assert!(open.is_empty());
}

use xclaude::events::{
    agent_end, agent_start, session_end, session_start, tool_end, tool_start, AgentStatus,
    TokenUsage, ToolStatus,
};
use xclaude::hooks::hook_socket_path;
use xclaude::session::{
    epoch_ms_to_iso, extract_model, flags_of, session_closing, session_opening, SessionFile,
};

fn strings(v: &[&str]) -> Vec<String> {
    v.iter().map(|s| s.to_string()).collect()
}

#[test]
fn session_start_fills_envelope_and_context() {
    let n = session_start(
        "s_01abc".to_string(),
        "2026-04-01T10:00:00.000Z".to_string(),
        "/home/user/project".to_string(),
        "opus-4-6".to_string(),
        strings(&["--dangerously-skip-permissions"]),
    );
    assert_eq!(n.jsonrpc, "2.0");
    assert_eq!(n.method, "session.start");
    assert_eq!(n.params.session_id, "s_01abc");
    assert_eq!(n.params.timestamp, "2026-04-01T10:00:00.000Z");
    assert_eq!(n.params.context.cwd, "/home/user/project");
    assert_eq!(n.params.context.model, "opus-4-6");
    assert_eq!(n.params.context.flags, strings(&["--dangerously-skip-permissions"]));
}

#[test]
fn session_end_fills_totals() {
    let n = session_end(
        "s_01abc".to_string(),
        "2026-04-01T10:05:32.100Z".to_string(),
        332100,
        0,
        3,
        17,
        TokenUsage { input: 48200, output: 6300 },
    );
    assert_eq!(n.method, "session.end");
    assert_eq!(n.params.duration_ms, 332100);
    assert_eq!(n.params.exit_code, 0);
    assert_eq!(n.params.context.total_agents, 3);
    assert_eq!(n.params.context.total_tool_calls, 17);
    assert_eq!(n.params.context.total_tokens, TokenUsage { input: 48200, output: 6300 });
}

#[test]
fn agent_start_and_end_for_subagent() {
    let s = agent_start(
        "s_01abc".to_string(),
        "a_03ghi".to_string(),
        Some("a_02def".to_string()),
        "2026-04-01T10:02:10.000Z".to_string(),
        "/home/user/project".to_string(),
        "Write tests".to_string(),
    );
    assert_eq!(s.method, "agent.start");
    assert_eq!(s.params.parent_agent_id, Some("a_02def".to_string()));
    assert_eq!(s.params.context.prompt_summary, "Write tests");
    let e = agent_end(
        "s_01abc".to_string(),
        "a_02def".to_string(),
        None,
        "2026-04-01T10:04:55.000Z".to_string(),
        294000,
        AgentStatus::Completed,
        strings(&["src/auth/login.ts"]),
        strings(&["src/auth/login.ts"]),
        12,
        TokenUsage { input: 31000, output: 4200 },
    );
    assert_eq!(e.method, "agent.end");
    assert_eq!(e.params.status, AgentStatus::Completed);
    assert_eq!(e.params.parent_agent_id, None);
    assert_eq!(e.params.context.files_read, strings(&["src/auth/login.ts"]));
    assert_eq!(e.params.context.tool_calls, 12);
    assert_eq!(e.params.context.tokens, TokenUsage { input: 31000, output: 4200 });
}

#[test]
fn tool_start_and_end_share_the_call_id() {
    let s = tool_start(
        "s".to_string(),
        "a".to_string(),
        "tc_04jkl".to_string(),
        "t0".to_string(),
        "Edit".to_string(),
        "{}".to_string(),
    );
    let e = tool_end(
        "s".to_string(),
        "a".to_string(),
        "tc_04jkl".to_string(),
        "t1".to_string(),
        220,
        "Edit".to_string(),
        ToolStatus::Success,
        strings(&["src/auth/login.ts"]),
    );
    assert_eq!(s.method, "tool.start");
    assert_eq!(e.method, "tool.end");
    assert_eq!(s.params.tool_call_id, e.params.tool_call_id);
    assert_eq!(s.params.input, "{}");
    assert_eq!(e.params.duration_ms, 220);
    assert_eq!(e.params.status, ToolStatus::Success);
    assert_eq!(e.params.context.files_written, strings(&["src/auth/login.ts"]));
}

#[test]
fn hook_socket_path_embeds_pid() {
    assert_eq!(hook_socket_path(42), "/tmp/xclaude-hook-42.sock");
    assert_eq!(hook_socket_path(0), "/tmp/xclaude-hook-0.sock");
    assert_eq!(hook_socket_path(4294967295), "/tmp/xclaude-hook-4294967295.sock");
    assert_ne!(hook_socket_path(1), hook_socket_path(11));
}

#[test]
fn event_socket_path() {
    assert_eq!(xclaude::socket::path(), "/tmp/xclaude.sock");
}

#[test]
fn extract_model_forms() {
    assert_eq!(extract_model(&strings(&["--model", "sonnet", "-p"])), Some("sonnet".to_string()));
    assert_eq!(extract_model(&strings(&["-p", "--model=haiku"])), Some("haiku".to_string()));
    assert_eq!(extract_model(&strings(&["--model"])), None);
    assert_eq!(extract_model(&strings(&["hello"])), None);
    assert_eq!(
        extract_model(&strings(&["--model=a", "--model", "b"])),
        Some("a".to_string())
    );
}

#[test]
fn flags_keep_double_dash_args() {
    assert_eq!(
        flags_of(&strings(&["--verbose", "-p", "x", "--model=a"])),
        strings(&["--verbose", "--model=a"])
    );
}

#[test]
fn epoch_ms_renders_rfc3339_millis() {
    assert_eq!(epoch_ms_to_iso(0), Some("1970-01-01T00:00:00.000Z".to_string()));
    assert_eq!(
        epoch_ms_to_iso(1775037600123),
        Some("2026-04-01T10:00:00.123Z".to_string())
    );
}

#[test]
fn session_opening_announces_session_and_root_agent() {
    let file = SessionFile {
        session_id: "abc".to_string(),
        cwd: "/w".to_string(),
        started_at: 1000,
    };
    let (s, a) = session_opening(&strings(&["--verbose", "hi"]), &file, "opus-4-6").unwrap();
    let (m, _) = session_opening(&strings(&["--model", "haiku"]), &file, "opus-4-6").unwrap();
    assert_eq!(m.params.context.model, "haiku");
    assert_eq!(s.method, "session.start");
    assert_eq!(s.params.session_id, "abc");
    assert_eq!(s.params.timestamp, "1970-01-01T00:00:01.000Z");
    assert_eq!(s.params.context.model, "opus-4-6");
    assert_eq!(s.params.context.flags, strings(&["--verbose"]));
    assert_eq!(a.method, "agent.start");
    assert_eq!(a.params.agent_id, "abc-agent-0");
    assert_eq!(a.params.parent_agent_id, None);
    assert_eq!(a.params.context.cwd, "/w");
    assert_eq!(a.params.context.prompt_summary, "");
}

#[test]
fn session_closing_reports_duration_and_exit_code() {
    let (a, s) = session_closing("abc", "t1".to_string(), "t2".to_string(), 1000, 3500, 7);
    assert_eq!(a.params.agent_id, "abc-agent-0");
    assert_eq!(a.params.duration_ms, 2500);
    assert_eq!(a.params.status, AgentStatus::Completed);
    assert_eq!(s.params.duration_ms, 2500);
    assert_eq!(s.params.exit_code, 7);
    assert_eq!(s.params.timestamp, "t2");
    let (a2, _) = session_closing("abc", "t1".to_string(), "t2".to_string(), 5000, 3500, 0);
    assert_eq!(a2.params.duration_ms, 0);
}

#[test]
fn all_hook_events_are_listed() {
    let hooks = xclaude::hooks::all_hooks();
    assert_eq!(hooks.len(), 22);
    assert_eq!(hooks[0], "SessionStart");
    assert_eq!(hooks[21], "SessionEnd");
    for h in ["PreToolUse", "PostToolUse", "SubagentStart", "SubagentStop", "Notification"] {
        assert!(hooks.iter().any(|x| x == h));
    }
}

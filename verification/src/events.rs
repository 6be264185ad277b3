//! The agentic events that xclaude publishes, as JSON-RPC 2.0 notifications,
//! and one constructor per event.

use vstd::prelude::*;

verus! {

/// How an agent finished.
#[derive(Debug, Clone, Copy, PartialEq, Eq, Structural)]
pub enum AgentStatus {
    Completed,
    Error,
    Cancelled,
}

/// How a tool call finished.
#[derive(Debug, Clone, Copy, PartialEq, Eq, Structural)]
pub enum ToolStatus {
    Success,
    Error,
    Blocked,
}

#[derive(Debug, Clone, Copy, PartialEq, Eq, Structural)]
pub struct TokenUsage {
    pub input: u64,
    pub output: u64,
}

#[derive(Debug, Clone)]
pub struct SessionStart {
    pub session_id: String,
    pub timestamp: String,
    pub context: SessionStartContext,
}

#[derive(Debug, Clone)]
pub struct SessionStartContext {
    pub cwd: String,
    pub model: String,
    pub flags: Vec<String>,
}

#[derive(Debug, Clone)]
pub struct SessionEnd {
    pub session_id: String,
    pub timestamp: String,
    pub duration_ms: u64,
    pub exit_code: i32,
    pub context: SessionEndContext,
}

#[derive(Debug, Clone)]
pub struct SessionEndContext {
    pub total_agents: u32,
    pub total_tool_calls: u32,
    pub total_tokens: TokenUsage,
}

#[derive(Debug, Clone)]
pub struct AgentStart {
    pub session_id: String,
    pub agent_id: String,
    pub parent_agent_id: Option<String>,
    pub timestamp: String,
    pub context: AgentStartContext,
}

#[derive(Debug, Clone)]
pub struct AgentStartContext {
    pub cwd: String,
    pub prompt_summary: String,
}

#[derive(Debug, Clone)]
pub struct AgentEnd {
    pub session_id: String,
    pub agent_id: String,
    pub parent_agent_id: Option<String>,
    pub timestamp: String,
    pub duration_ms: u64,
    pub status: AgentStatus,
    pub context: AgentEndContext,
}

#[derive(Debug, Clone)]
pub struct AgentEndContext {
    pub files_read: Vec<String>,
    pub files_written: Vec<String>,
    pub tool_calls: u32,
    pub tokens: TokenUsage,
}

#[derive(Debug, Clone)]
pub struct ToolStart {
    pub session_id: String,
    pub agent_id: String,
    pub tool_call_id: String,
    pub timestamp: String,
    pub tool: String,
    pub input: String,
}

#[derive(Debug, Clone)]
pub struct ToolEnd {
    pub session_id: String,
    pub agent_id: String,
    pub tool_call_id: String,
    pub timestamp: String,
    pub duration_ms: u64,
    pub tool: String,
    pub status: ToolStatus,
    pub context: ToolEndContext,
}

#[derive(Debug, Clone)]
pub struct ToolEndContext {
    pub files_written: Vec<String>,
}

/// A JSON-RPC 2.0 notification carrying an event.
#[derive(Debug, Clone)]
pub struct Notification<T> {
    pub jsonrpc: String,
    pub method: String,
    pub params: T,
}

/// The envelope every event is sent in: JSON-RPC version "2.0" and the
/// event's method name.
pub open spec fn is_envelope<T>(n: Notification<T>, method: Seq<char>) -> bool {
    &&& n.jsonrpc@ == "2.0"@
    &&& n.method@ == method
}

fn notification<T>(method: &str, params: T) -> (r: Notification<T>)
    ensures
        is_envelope(r, method@),
        r.params == params,
{
    Notification { jsonrpc: String::from_str("2.0"), method: String::from_str(method), params }
}

/// The `session.start` notification.
pub fn session_start(
    session_id: String,
    timestamp: String,
    cwd: String,
    model: String,
    flags: Vec<String>,
) -> (r: Notification<SessionStart>)
    ensures
        is_envelope(r, "session.start"@),
        r.params.session_id == session_id,
        r.params.timestamp == timestamp,
        r.params.context.cwd == cwd,
        r.params.context.model == model,
        r.params.context.flags == flags,
{
    notification(
        "session.start",
        SessionStart { session_id, timestamp, context: SessionStartContext { cwd, model, flags } },
    )
}

/// The `session.end` notification.
pub fn session_end(
    session_id: String,
    timestamp: String,
    duration_ms: u64,
    exit_code: i32,
    total_agents: u32,
    total_tool_calls: u32,
    total_tokens: TokenUsage,
) -> (r: Notification<SessionEnd>)
    ensures
        is_envelope(r, "session.end"@),
        r.params.session_id == session_id,
        r.params.timestamp == timestamp,
        r.params.duration_ms == duration_ms,
        r.params.exit_code == exit_code,
        r.params.context.total_agents == total_agents,
        r.params.context.total_tool_calls == total_tool_calls,
        r.params.context.total_tokens == total_tokens,
{
    notification(
        "session.end",
        SessionEnd {
            session_id,
            timestamp,
            duration_ms,
            exit_code,
            context: SessionEndContext { total_agents, total_tool_calls, total_tokens },
        },
    )
}

/// The `agent.start` notification.
pub fn agent_start(
    session_id: String,
    agent_id: String,
    parent_agent_id: Option<String>,
    timestamp: String,
    cwd: String,
    prompt_summary: String,
) -> (r: Notification<AgentStart>)
    ensures
        is_envelope(r, "agent.start"@),
        r.params.session_id == session_id,
        r.params.agent_id == agent_id,
        r.params.parent_agent_id == parent_agent_id,
        r.params.timestamp == timestamp,
        r.params.context.cwd == cwd,
        r.params.context.prompt_summary == prompt_summary,
{
    notification(
        "agent.start",
        AgentStart {
            session_id,
            agent_id,
            parent_agent_id,
            timestamp,
            context: AgentStartContext { cwd, prompt_summary },
        },
    )
}

/// The `agent.end` notification.
pub fn agent_end(
    session_id: String,
    agent_id: String,
    parent_agent_id: Option<String>,
    timestamp: String,
    duration_ms: u64,
    status: AgentStatus,
    files_read: Vec<String>,
    files_written: Vec<String>,
    tool_calls: u32,
    tokens: TokenUsage,
) -> (r: Notification<AgentEnd>)
    ensures
        is_envelope(r, "agent.end"@),
        r.params.session_id == session_id,
        r.params.agent_id == agent_id,
        r.params.parent_agent_id == parent_agent_id,
        r.params.timestamp == timestamp,
        r.params.duration_ms == duration_ms,
        r.params.status == status,
        r.params.context.files_read == files_read,
        r.params.context.files_written == files_written,
        r.params.context.tool_calls == tool_calls,
        r.params.context.tokens == tokens,
{
    notification(
        "agent.end",
        AgentEnd {
            session_id,
            agent_id,
            parent_agent_id,
            timestamp,
            duration_ms,
            status,
            context: AgentEndContext { files_read, files_written, tool_calls, tokens },
        },
    )
}

/// The `tool.start` notification.
pub fn tool_start(
    session_id: String,
    agent_id: String,
    tool_call_id: String,
    timestamp: String,
    tool: String,
    input: String,
) -> (r: Notification<ToolStart>)
    ensures
        is_envelope(r, "tool.start"@),
        r.params.session_id == session_id,
        r.params.agent_id == agent_id,
        r.params.tool_call_id == tool_call_id,
        r.params.timestamp == timestamp,
        r.params.tool == tool,
        r.params.input == input,
{
    notification(
        "tool.start",
        ToolStart { session_id, agent_id, tool_call_id, timestamp, tool, input },
    )
}

/// The `tool.end` notification.
pub fn tool_end(
    session_id: String,
    agent_id: String,
    tool_call_id: String,
    timestamp: String,
    duration_ms: u64,
    tool: String,
    status: ToolStatus,
    files_written: Vec<String>,
) -> (r: Notification<ToolEnd>)
    ensures
        is_envelope(r, "tool.end"@),
        r.params.session_id == session_id,
        r.params.agent_id == agent_id,
        r.params.tool_call_id == tool_call_id,
        r.params.timestamp == timestamp,
        r.params.duration_ms == duration_ms,
        r.params.tool == tool,
        r.params.status == status,
        r.params.context.files_written == files_written,
{
    notification(
        "tool.end",
        ToolEnd {
            session_id,
            agent_id,
            tool_call_id,
            timestamp,
            duration_ms,
            tool,
            status,
            context: ToolEndContext { files_written },
        },
    )
}

} // verus!

//! Hook handling: the per-process hook socket path, the injected settings,
//! and the receiver that turns the wrapped CLI's hook payloads into xclaude events.
//!
//! The receiver is a state machine: `ReceiverState::handle` takes the state,
//! one payload and the current time, and returns the next state and the event
//! to broadcast. Reading the socket and broadcasting are the caller's work.

use vstd::prelude::*;
use crate::assoc::{
    assoc_map, find_key, key_view, keys_unique, lemma_last_index, lemma_push_map,
    lemma_remove_map, lemma_update_map,
};
use crate::events::{
    agent_end, agent_start, is_envelope, tool_end, tool_start, AgentEnd, AgentStart, AgentStatus,
    Notification, TokenUsage, ToolEnd, ToolStart, ToolStatus,
};
use crate::json::{lemma_object_model, lemma_array_model, entries_model, values_model, opt_bool, opt_get, opt_model, opt_json_model, opt_str, str_eq, Json, JsonModel};
use crate::json_text::{json_to_text, spec_json_text};
use crate::text::{decimal, lemma_decimal_injective, u64_to_decimal};

verus! {

// ---------------------------------------------------------------------------
// Hook socket path and settings generation
// ---------------------------------------------------------------------------

/// The path of the hook receiver socket of process `pid`.
pub open spec fn spec_hook_socket_path(pid: u32) -> Seq<char> {
    "/tmp/xclaude-hook-"@ + decimal(pid as nat) + ".sock"@
}

/// `/tmp/xclaude-hook-<pid>.sock`.
pub fn hook_socket_path(pid: u32) -> (r: String)
    ensures
        r@ == spec_hook_socket_path(pid),
{
    let mut r = String::from_str("/tmp/xclaude-hook-");
    let d = u64_to_decimal(pid as u64);
    r.append(d.as_str());
    r.append(".sock");
    r
}

/// Distinct processes get distinct hook sockets.
pub proof fn hook_socket_paths_distinct(a: u32, b: u32)
    requires
        a != b,
    ensures
        spec_hook_socket_path(a) != spec_hook_socket_path(b),
{
    reveal_strlit("/tmp/xclaude-hook-");
    reveal_strlit(".sock");
    let p = "/tmp/xclaude-hook-"@;
    let s = ".sock"@;
    let da = decimal(a as nat);
    let db = decimal(b as nat);
    if spec_hook_socket_path(a) == spec_hook_socket_path(b) {
        let x = spec_hook_socket_path(a);
        assert(x.subrange(p.len() as int, x.len() - s.len()) =~= da);
        assert(spec_hook_socket_path(b).subrange(p.len() as int, x.len() - s.len()) =~= db);
        lemma_decimal_injective(a as nat, b as nat);
    }
}

/// The shell command that forwards a hook payload from stdin to the socket.
pub open spec fn spec_forward_command(sock: Seq<char>) -> Seq<char> {
    "python3 -c \"import socket,sys; s=socket.socket(socket.AF_UNIX); s.connect('"@ + sock
        + "'); s.sendall(sys.stdin.buffer.read()); s.close()\""@
}

/// The hook registration list: one matcher-less entry running the command.
pub open spec fn spec_hook_entry(cmd: Seq<char>) -> JsonModel {
    JsonModel::Array(
        seq![
            JsonModel::Object(
                seq![
                    ("matcher"@, JsonModel::Str(""@)),
                    (
                        "hooks"@,
                        JsonModel::Array(
                            seq![
                                JsonModel::Object(
                                    seq![
                                        ("type"@, JsonModel::Str("command"@)),
                                        ("command"@, JsonModel::Str(cmd)),
                                    ],
                                ),
                            ],
                        ),
                    ),
                ],
            ),
        ],
    )
}

/// The settings document: the four hooks xclaude listens to, each forwarding
/// to the socket.
pub open spec fn spec_settings(sock: Seq<char>) -> JsonModel {
    let e = spec_hook_entry(spec_forward_command(sock));
    JsonModel::Object(
        seq![
            (
                "hooks"@,
                JsonModel::Object(
                    seq![
                        ("PreToolUse"@, e),
                        ("PostToolUse"@, e),
                        ("SubagentStart"@, e),
                        ("SubagentStop"@, e),
                    ],
                ),
            ),
        ],
    )
}

fn json_string(s: &str) -> (r: Json)
    ensures
        r@ == JsonModel::Str(s@),
{
    Json::Str(String::from_str(s))
}

fn json_object2(k1: &str, v1: Json, k2: &str, v2: Json) -> (r: Json)
    ensures
        r@ == JsonModel::Object(seq![(k1@, v1@), (k2@, v2@)]),
{
    let mut o: Vec<(String, Json)> = Vec::new();
    o.push((String::from_str(k1), v1));
    o.push((String::from_str(k2), v2));
    proof {
        lemma_object_model(o);
        assert(entries_model(o@) =~= seq![(k1@, v1@), (k2@, v2@)]);
    }
    Json::Object(o)
}

fn json_array1(v: Json) -> (r: Json)
    ensures
        r@ == JsonModel::Array(seq![v@]),
{
    let mut a: Vec<Json> = Vec::new();
    a.push(v);
    proof {
        lemma_array_model(a);
        assert(values_model(a@) =~= seq![v@]);
    }
    Json::Array(a)
}

/// The settings JSON that registers the xclaude hooks, each forwarding its
/// payload to the hook receiver socket. The wrapped CLI merges it with any
/// existing settings when passed via `--settings`.
pub fn generate_settings(hook_sock: &str) -> (r: String)
    ensures
        r@ == spec_json_text(spec_settings(hook_sock@)),
{
    let mut cmd = String::from_str(
        "python3 -c \"import socket,sys; s=socket.socket(socket.AF_UNIX); s.connect('",
    );
    cmd.append(hook_sock);
    cmd.append("'); s.sendall(sys.stdin.buffer.read()); s.close()\"");
    let inner = json_object2("type", json_string("command"), "command", Json::Str(cmd));
    let entry = json_array1(json_object2("matcher", json_string(""), "hooks", json_array1(inner)));
    let mut hooks: Vec<(String, Json)> = Vec::new();
    hooks.push((String::from_str("PreToolUse"), entry.deep_clone()));
    hooks.push((String::from_str("PostToolUse"), entry.deep_clone()));
    hooks.push((String::from_str("SubagentStart"), entry.deep_clone()));
    hooks.push((String::from_str("SubagentStop"), entry));
    let ghost e = spec_hook_entry(spec_forward_command(hook_sock@));
    proof {
        lemma_object_model(hooks);
        assert(entries_model(hooks@) =~= seq![
            ("PreToolUse"@, e),
            ("PostToolUse"@, e),
            ("SubagentStart"@, e),
            ("SubagentStop"@, e),
        ]);
    }
    let mut top: Vec<(String, Json)> = Vec::new();
    top.push((String::from_str("hooks"), Json::Object(hooks)));
    proof {
        lemma_object_model(top);
        assert(entries_model(top@) =~= spec_settings(hook_sock@)->Object_0);
    }
    json_to_text(&Json::Object(top))
}

/// The hook events the wrapped CLI offers, in the order they are listed.
pub open spec fn spec_all_hooks() -> Seq<Seq<char>> {
    seq![
        "SessionStart"@,
        "InstructionsLoaded"@,
        "UserPromptSubmit"@,
        "PreToolUse"@,
        "PermissionRequest"@,
        "PostToolUse"@,
        "PostToolUseFailure"@,
        "Stop"@,
        "StopFailure"@,
        "Notification"@,
        "SubagentStart"@,
        "SubagentStop"@,
        "TeammateIdle"@,
        "TaskCompleted"@,
        "PreCompact"@,
        "PostCompact"@,
        "ConfigChange"@,
        "WorktreeCreate"@,
        "WorktreeRemove"@,
        "Elicitation"@,
        "ElicitationResult"@,
        "SessionEnd"@,
    ]
}

/// The names of all hook events.
pub fn all_hooks() -> (r: Vec<String>)
    ensures
        texts(r@) == spec_all_hooks(),
{
    let mut v: Vec<String> = Vec::new();
    v.push(String::from_str("SessionStart"));
    v.push(String::from_str("InstructionsLoaded"));
    v.push(String::from_str("UserPromptSubmit"));
    v.push(String::from_str("PreToolUse"));
    v.push(String::from_str("PermissionRequest"));
    v.push(String::from_str("PostToolUse"));
    v.push(String::from_str("PostToolUseFailure"));
    v.push(String::from_str("Stop"));
    v.push(String::from_str("StopFailure"));
    v.push(String::from_str("Notification"));
    v.push(String::from_str("SubagentStart"));
    v.push(String::from_str("SubagentStop"));
    v.push(String::from_str("TeammateIdle"));
    v.push(String::from_str("TaskCompleted"));
    v.push(String::from_str("PreCompact"));
    v.push(String::from_str("PostCompact"));
    v.push(String::from_str("ConfigChange"));
    v.push(String::from_str("WorktreeCreate"));
    v.push(String::from_str("WorktreeRemove"));
    v.push(String::from_str("Elicitation"));
    v.push(String::from_str("ElicitationResult"));
    v.push(String::from_str("SessionEnd"));
    assert(texts(v@) =~= spec_all_hooks());
    v
}

// ---------------------------------------------------------------------------
// Hook payloads
// ---------------------------------------------------------------------------

/// The JSON the wrapped CLI sends to every hook command on stdin, as far as the
/// receiver reads it.
pub struct HookPayload {
    pub session_id: Option<String>,
    pub hook_event_name: Option<String>,
    pub tool_name: Option<String>,
    pub tool_use_id: Option<String>,
    pub tool_input: Option<Json>,
    pub tool_response: Option<Json>,
    pub cwd: Option<String>,
}

/// The model of a hook payload.
pub struct PayloadModel {
    pub session_id: Option<Seq<char>>,
    pub hook_event_name: Option<Seq<char>>,
    pub tool_name: Option<Seq<char>>,
    pub tool_use_id: Option<Seq<char>>,
    pub tool_input: Option<JsonModel>,
    pub tool_response: Option<JsonModel>,
    pub cwd: Option<Seq<char>>,
}

pub open spec fn opt_text(o: Option<String>) -> Option<Seq<char>> {
    match o {
        Some(s) => Some(s@),
        None => None,
    }
}

impl View for HookPayload {
    type V = PayloadModel;

    open spec fn view(&self) -> PayloadModel {
        PayloadModel {
            session_id: opt_text(self.session_id),
            hook_event_name: opt_text(self.hook_event_name),
            tool_name: opt_text(self.tool_name),
            tool_use_id: opt_text(self.tool_use_id),
            tool_input: opt_json_model(self.tool_input),
            tool_response: opt_json_model(self.tool_response),
            cwd: opt_text(self.cwd),
        }
    }
}

/// `o.unwrap_or_default()` on optional text.
pub open spec fn text_or_empty(o: Option<Seq<char>>) -> Seq<char> {
    match o {
        Some(s) => s,
        None => Seq::empty(),
    }
}

fn string_or_empty(o: Option<String>) -> (r: String)
    ensures
        r@ == text_or_empty(opt_text(o)),
{
    match o {
        Some(s) => s,
        None => String::new(),
    }
}

// ---------------------------------------------------------------------------
// Tool response parsing
// ---------------------------------------------------------------------------

/// The tool status a response reports: an error exactly when its `success`
/// member is `false`.
pub open spec fn spec_tool_status(response: Option<JsonModel>) -> ToolStatus {
    match opt_bool(opt_get(response, "success"@)) {
        Some(false) => ToolStatus::Error,
        _ => ToolStatus::Success,
    }
}

/// The files a tool call writes, read from its input: the `file_path` of a
/// Write, Edit or MultiEdit, nothing for any other tool.
pub open spec fn spec_files_written(tool: Seq<char>, input: Option<JsonModel>) -> Seq<Seq<char>> {
    if tool == "Write"@ || tool == "Edit"@ || tool == "MultiEdit"@ {
        match opt_str(opt_get(input, "file_path"@)) {
            Some(p) => seq![p],
            None => Seq::empty(),
        }
    } else {
        Seq::empty()
    }
}

/// The views of a sequence of strings.
pub open spec fn texts(v: Seq<String>) -> Seq<Seq<char>> {
    Seq::new(v.len(), |i: int| v[i]@)
}

/// Determine the tool status and collect any files written from the tool
/// input/response. Only Write, Edit, and MultiEdit produce written files,
/// each its input's `file_path`.
pub fn parse_tool_response(tool: &str, input: Option<&Json>, response: Option<&Json>) -> (r: (
    ToolStatus,
    Vec<String>,
))
    ensures
        r.0 == spec_tool_status(opt_model(response)),
        texts(r.1@) == spec_files_written(tool@, opt_model(input)),
{
    let success = match response {
        Some(v) => match v.get("success") {
            Some(s) => s.as_bool(),
            None => None,
        },
        None => None,
    };
    let status = match success {
        Some(false) => ToolStatus::Error,
        _ => ToolStatus::Success,
    };
    let mut files: Vec<String> = Vec::new();
    if str_eq(tool, "Write") || str_eq(tool, "Edit") || str_eq(tool, "MultiEdit") {
        match input {
            Some(v) => match v.get("file_path") {
                Some(p) => match p.as_str() {
                    Some(s) => {
                        files.push(String::from_str(s));
                        assert(texts(files@) =~= seq![s@]);
                    },
                    None => {},
                },
                None => {},
            },
            None => {},
        }
        assert(texts(files@) =~= spec_files_written(tool@, opt_model(input)));
    } else {
        assert(texts(files@) =~= spec_files_written(tool@, opt_model(input)));
    }
    (status, files)
}

// ---------------------------------------------------------------------------
// Receiver state
// ---------------------------------------------------------------------------

/// An event the receiver broadcasts.
pub enum HookEvent {
    ToolStart(Notification<ToolStart>),
    ToolEnd(Notification<ToolEnd>),
    AgentStart(Notification<AgentStart>),
    AgentEnd(Notification<AgentEnd>),
}

/// The model of a broadcast event: its parameters, taken by their views.
pub enum EventModel {
    ToolStart {
        session_id: Seq<char>,
        agent_id: Seq<char>,
        tool_call_id: Seq<char>,
        timestamp: Seq<char>,
        tool: Seq<char>,
        input: Seq<char>,
    },
    ToolEnd {
        session_id: Seq<char>,
        agent_id: Seq<char>,
        tool_call_id: Seq<char>,
        timestamp: Seq<char>,
        duration_ms: u64,
        tool: Seq<char>,
        status: ToolStatus,
        files_written: Seq<Seq<char>>,
    },
    AgentStart {
        session_id: Seq<char>,
        agent_id: Seq<char>,
        parent_agent_id: Option<Seq<char>>,
        timestamp: Seq<char>,
        cwd: Seq<char>,
        prompt_summary: Seq<char>,
    },
    AgentEnd {
        session_id: Seq<char>,
        agent_id: Seq<char>,
        parent_agent_id: Option<Seq<char>>,
        timestamp: Seq<char>,
        duration_ms: u64,
        status: AgentStatus,
        files_read: Seq<Seq<char>>,
        files_written: Seq<Seq<char>>,
        tool_calls: u32,
        tokens: TokenUsage,
    },
}

impl View for HookEvent {
    type V = EventModel;

    open spec fn view(&self) -> EventModel {
        match self {
            HookEvent::ToolStart(n) => EventModel::ToolStart {
                session_id: n.params.session_id@,
                agent_id: n.params.agent_id@,
                tool_call_id: n.params.tool_call_id@,
                timestamp: n.params.timestamp@,
                tool: n.params.tool@,
                input: n.params.input@,
            },
            HookEvent::ToolEnd(n) => EventModel::ToolEnd {
                session_id: n.params.session_id@,
                agent_id: n.params.agent_id@,
                tool_call_id: n.params.tool_call_id@,
                timestamp: n.params.timestamp@,
                duration_ms: n.params.duration_ms,
                tool: n.params.tool@,
                status: n.params.status,
                files_written: texts(n.params.context.files_written@),
            },
            HookEvent::AgentStart(n) => EventModel::AgentStart {
                session_id: n.params.session_id@,
                agent_id: n.params.agent_id@,
                parent_agent_id: opt_text(n.params.parent_agent_id),
                timestamp: n.params.timestamp@,
                cwd: n.params.context.cwd@,
                prompt_summary: n.params.context.prompt_summary@,
            },
            HookEvent::AgentEnd(n) => EventModel::AgentEnd {
                session_id: n.params.session_id@,
                agent_id: n.params.agent_id@,
                parent_agent_id: opt_text(n.params.parent_agent_id),
                timestamp: n.params.timestamp@,
                duration_ms: n.params.duration_ms,
                status: n.params.status,
                files_read: texts(n.params.context.files_read@),
                files_written: texts(n.params.context.files_written@),
                tool_calls: n.params.context.tool_calls,
                tokens: n.params.context.tokens,
            },
        }
    }
}

/// Every event travels in the envelope its kind calls for.
pub open spec fn event_envelope(e: HookEvent) -> bool {
    match e {
        HookEvent::ToolStart(n) => is_envelope(n, "tool.start"@),
        HookEvent::ToolEnd(n) => is_envelope(n, "tool.end"@),
        HookEvent::AgentStart(n) => is_envelope(n, "agent.start"@),
        HookEvent::AgentEnd(n) => is_envelope(n, "agent.end"@),
    }
}

pub open spec fn opt_event(e: Option<HookEvent>) -> Option<EventModel> {
    match e {
        Some(e) => Some(e@),
        None => None,
    }
}

/// The receiver's memory between payloads.
pub struct ReceiverState {
    /// Start time (nanoseconds) keyed by tool_use_id, to compute tool duration.
    tool_starts: Vec<(String, u64)>,
    /// Stack of (agent_id, start time in nanoseconds) for active subagents.
    agent_stack: Vec<(String, u64)>,
    agent_counter: u32,
}

/// The model of the receiver's memory.
pub struct ReceiverModel {
    /// Start time of each tool call still running, keyed by its id.
    pub tool_starts: Map<Seq<char>, u64>,
    /// Active subagents, innermost last, with their start times.
    pub agent_stack: Seq<(Seq<char>, u64)>,
    /// How many subagents have been started.
    pub agent_counter: u32,
}

impl View for ReceiverState {
    type V = ReceiverModel;

    closed spec fn view(&self) -> ReceiverModel {
        ReceiverModel {
            tool_starts: assoc_map(key_view(self.tool_starts@)),
            agent_stack: key_view(self.agent_stack@),
            agent_counter: self.agent_counter,
        }
    }
}

/// The currently active agent: top of the subagent stack, or the session
/// itself when no subagent is running.
pub open spec fn spec_current_agent(s: ReceiverModel, session_id: Seq<char>) -> Seq<char> {
    if s.agent_stack.len() > 0 {
        s.agent_stack.last().0
    } else {
        session_id
    }
}

/// The agent below the top of a stack, if any.
pub open spec fn spec_top(stack: Seq<(Seq<char>, u64)>) -> Option<Seq<char>> {
    if stack.len() > 0 {
        Some(stack.last().0)
    } else {
        None
    }
}

/// Whole milliseconds elapsed between two instants given in nanoseconds,
/// zero when `now` is not after `start` (as `Instant::elapsed` saturates).
pub open spec fn elapsed_ms(start: u64, now: u64) -> u64 {
    if now >= start {
        ((now - start) / 1_000_000) as u64
    } else {
        0
    }
}

/// The id of the `n`-th subagent of a session.
pub open spec fn spec_agent_id(session_id: Seq<char>, n: nat) -> Seq<char> {
    session_id + "-agent-"@ + decimal(n)
}

/// Is this a payload that starts a subagent?
pub open spec fn starts_subagent(p: PayloadModel) -> bool {
    p.session_id is Some && p.hook_event_name == Some("SubagentStart"@)
}

/// The receiver's transition: the next state and the event broadcast for one
/// payload received at `now` (RFC 3339 text) / `now_ns` (monotonic
/// nanoseconds).
pub open spec fn hook_step(s: ReceiverModel, p: PayloadModel, now: Seq<char>, now_ns: u64) -> (
    ReceiverModel,
    Option<EventModel>,
) {
    match p.session_id {
        None => (s, None),
        Some(sid) => {
            let ev = text_or_empty(p.hook_event_name);
            let tool = text_or_empty(p.tool_name);
            let id = text_or_empty(p.tool_use_id);
            if ev == "PreToolUse"@ {
                let input = match p.tool_input {
                    Some(v) => spec_json_text(v),
                    None => Seq::empty(),
                };
                (
                    ReceiverModel { tool_starts: s.tool_starts.insert(id, now_ns), ..s },
                    Some(
                        EventModel::ToolStart {
                            session_id: sid,
                            agent_id: spec_current_agent(s, sid),
                            tool_call_id: id,
                            timestamp: now,
                            tool,
                            input,
                        },
                    ),
                )
            } else if ev == "PostToolUse"@ {
                let duration_ms = if s.tool_starts.contains_key(id) {
                    elapsed_ms(s.tool_starts[id], now_ns)
                } else {
                    0
                };
                (
                    ReceiverModel { tool_starts: s.tool_starts.remove(id), ..s },
                    Some(
                        EventModel::ToolEnd {
                            session_id: sid,
                            agent_id: spec_current_agent(s, sid),
                            tool_call_id: id,
                            timestamp: now,
                            duration_ms,
                            tool,
                            status: spec_tool_status(p.tool_response),
                            files_written: spec_files_written(tool, p.tool_input),
                        },
                    ),
                )
            } else if ev == "SubagentStart"@ {
                let n = (s.agent_counter + 1) as u32;
                let agent_id = spec_agent_id(sid, n as nat);
                (
                    ReceiverModel {
                        agent_stack: s.agent_stack.push((agent_id, now_ns)),
                        agent_counter: n,
                        ..s
                    },
                    Some(
                        EventModel::AgentStart {
                            session_id: sid,
                            agent_id,
                            parent_agent_id: spec_top(s.agent_stack),
                            timestamp: now,
                            cwd: text_or_empty(p.cwd),
                            prompt_summary: Seq::empty(),
                        },
                    ),
                )
            } else if ev == "SubagentStop"@ {
                if s.agent_stack.len() == 0 {
                    (s, None)
                } else {
                    let top = s.agent_stack.last();
                    let rest = s.agent_stack.drop_last();
                    (
                        ReceiverModel { agent_stack: rest, ..s },
                        Some(
                            EventModel::AgentEnd {
                                session_id: sid,
                                agent_id: top.0,
                                parent_agent_id: spec_top(rest),
                                timestamp: now,
                                duration_ms: elapsed_ms(top.1, now_ns),
                                status: AgentStatus::Completed,
                                files_read: Seq::empty(),
                                files_written: Seq::empty(),
                                tool_calls: 0,
                                tokens: TokenUsage { input: 0, output: 0 },
                            },
                        ),
                    )
                }
            } else {
                (s, None)
            }
        },
    }
}

fn elapsed(start: u64, now: u64) -> (r: u64)
    ensures
        r == elapsed_ms(start, now),
{
    if now >= start {
        (now - start) / 1_000_000
    } else {
        0
    }
}

impl ReceiverState {
    /// The state's own consistency: no tool call id is recorded twice.
    pub closed spec fn wf(&self) -> bool {
        keys_unique(key_view(self.tool_starts@))
    }

    /// A receiver that has seen nothing.
    pub fn new() -> (r: Self)
        ensures
            r.wf(),
            r@.tool_starts == Map::<Seq<char>, u64>::empty(),
            r@.agent_stack == Seq::<(Seq<char>, u64)>::empty(),
            r@.agent_counter == 0,
    {
        let r = ReceiverState { tool_starts: Vec::new(), agent_stack: Vec::new(), agent_counter: 0 };
        proof {
            assert(key_view(r.tool_starts@) =~= Seq::<(Seq<char>, u64)>::empty());
            assert(assoc_map(key_view(r.tool_starts@)) =~= Map::<Seq<char>, u64>::empty());
            assert(key_view(r.agent_stack@) =~= Seq::<(Seq<char>, u64)>::empty());
        }
        r
    }

    /// The currently active agent: top of the subagent stack, or the session
    /// itself when no subagent is running.
    fn current_agent_id(&self, session_id: &str) -> (r: String)
        ensures
            r@ == spec_current_agent(self@, session_id@),
    {
        let n = self.agent_stack.len();
        if n > 0 {
            self.agent_stack[n - 1].0.clone()
        } else {
            String::from_str(session_id)
        }
    }

    fn parent_agent_id(&self) -> (r: Option<String>)
        ensures
            opt_text(r) == spec_top(self@.agent_stack),
    {
        let n = self.agent_stack.len();
        if n > 0 {
            Some(self.agent_stack[n - 1].0.clone())
        } else {
            None
        }
    }

    fn record_tool_start(&mut self, id: &str, now_ns: u64)
        requires
            old(self).wf(),
        ensures
            final(self).wf(),
            final(self)@ == (ReceiverModel {
                tool_starts: old(self)@.tool_starts.insert(id@, now_ns),
                ..old(self)@
            }),
    {
        let ghost kv = key_view(self.tool_starts@);
        match find_key(&self.tool_starts, id) {
            Some(i) => {
                let key = self.tool_starts[i].0.clone();
                self.tool_starts.set(i, (key, now_ns));
                proof {
                    lemma_last_index(kv, id@);
                    lemma_update_map(kv, i as int, now_ns);
                    assert(key_view(self.tool_starts@) =~= kv.update(i as int, (kv[i as int].0, now_ns)));
                }
            },
            None => {
                self.tool_starts.push((String::from_str(id), now_ns));
                proof {
                    lemma_push_map(kv, id@, now_ns);
                    assert(key_view(self.tool_starts@) =~= kv.push((id@, now_ns)));
                    lemma_last_index(kv, id@);
                    assert forall|i: int, j: int|
                        0 <= i < kv.len() + 1 && 0 <= j < kv.len() + 1 && i != j implies
                        key_view(self.tool_starts@)[i].0 != key_view(self.tool_starts@)[j].0 by {
                        if i < kv.len() && j == kv.len() {
                            assert(kv[i].0 != id@);
                        } else if j < kv.len() && i == kv.len() {
                            assert(kv[j].0 != id@);
                        }
                    }
                }
            },
        }
    }

    fn take_tool_start(&mut self, id: &str) -> (r: Option<u64>)
        requires
            old(self).wf(),
        ensures
            final(self).wf(),
            final(self)@ == (ReceiverModel {
                tool_starts: old(self)@.tool_starts.remove(id@),
                ..old(self)@
            }),
            r == (if old(self)@.tool_starts.contains_key(id@) {
                Some(old(self)@.tool_starts[id@])
            } else {
                None
            }),
    {
        let ghost kv = key_view(self.tool_starts@);
        match find_key(&self.tool_starts, id) {
            Some(i) => {
                let (_, start) = self.tool_starts.remove(i);
                proof {
                    lemma_last_index(kv, id@);
                    lemma_remove_map(kv, i as int);
                    assert(key_view(self.tool_starts@) =~= kv.remove(i as int));
                }
                Some(start)
            },
            None => {
                proof {
                    assert(assoc_map(kv).remove(id@) =~= assoc_map(kv));
                }
                None
            },
        }
    }

    /// Turns one hook payload into the event to broadcast, updating the
    /// receiver's memory. `now` is the current time as RFC 3339 text and
    /// `now_ns` a monotonic clock reading in nanoseconds.
    pub fn handle(&mut self, payload: HookPayload, now: String, now_ns: u64) -> (r: Option<
        HookEvent,
    >)
        requires
            old(self).wf(),
            starts_subagent(payload@) ==> old(self)@.agent_counter < u32::MAX,
        ensures
            final(self).wf(),
            (final(self)@, opt_event(r)) == hook_step(old(self)@, payload@, now@, now_ns),
            r matches Some(e) ==> event_envelope(e),
    {
        let ghost p = payload@;
        let session_id = match payload.session_id {
            Some(id) => id,
            None => return None,
        };
        let ev = string_or_empty(payload.hook_event_name);
        if str_eq(ev.as_str(), "PreToolUse") {
            let tool = string_or_empty(payload.tool_name);
            let tool_use_id = string_or_empty(payload.tool_use_id);
            let input = match &payload.tool_input {
                Some(v) => json_to_text(v),
                None => String::new(),
            };
            let agent_id = self.current_agent_id(session_id.as_str());
            self.record_tool_start(tool_use_id.as_str(), now_ns);
            Some(HookEvent::ToolStart(tool_start(session_id, agent_id, tool_use_id, now, tool, input)))
        } else if str_eq(ev.as_str(), "PostToolUse") {
            let tool = string_or_empty(payload.tool_name);
            let tool_use_id = string_or_empty(payload.tool_use_id);
            let agent_id = self.current_agent_id(session_id.as_str());
            let duration_ms = match self.take_tool_start(tool_use_id.as_str()) {
                Some(start) => elapsed(start, now_ns),
                None => 0,
            };
            let (status, files_written) = parse_tool_response(
                tool.as_str(),
                payload.tool_input.as_ref(),
                payload.tool_response.as_ref(),
            );
            Some(
                HookEvent::ToolEnd(
                    tool_end(
                        session_id,
                        agent_id,
                        tool_use_id,
                        now,
                        duration_ms,
                        tool,
                        status,
                        files_written,
                    ),
                ),
            )
        } else if str_eq(ev.as_str(), "SubagentStart") {
            proof {
                lemma_hook_names();
                assert(p.hook_event_name == Some("SubagentStart"@));
            }
            self.agent_counter = self.agent_counter + 1;
            let mut agent_id = session_id.clone();
            agent_id.append("-agent-");
            let n = u64_to_decimal(self.agent_counter as u64);
            agent_id.append(n.as_str());
            let parent_agent_id = self.parent_agent_id();
            let cwd = string_or_empty(payload.cwd);
            self.agent_stack.push((agent_id.clone(), now_ns));
            proof {
                assert(key_view(self.agent_stack@) =~= old(self)@.agent_stack.push((agent_id@, now_ns)));
            }
            Some(
                HookEvent::AgentStart(
                    agent_start(session_id, agent_id, parent_agent_id, now, cwd, String::new()),
                ),
            )
        } else if str_eq(ev.as_str(), "SubagentStop") {
            match self.agent_stack.pop() {
                Some((agent_id, started)) => {
                    proof {
                        assert(key_view(self.agent_stack@) =~= old(self)@.agent_stack.drop_last());
                    }
                    let parent_agent_id = self.parent_agent_id();
                    let duration_ms = elapsed(started, now_ns);
                    let n = agent_end(
                        session_id,
                        agent_id,
                        parent_agent_id,
                        now,
                        duration_ms,
                        AgentStatus::Completed,
                        Vec::new(),
                        Vec::new(),
                        0,
                        TokenUsage { input: 0, output: 0 },
                    );
                    proof {
                        assert(texts(n.params.context.files_read@) =~= Seq::empty());
                        assert(texts(n.params.context.files_written@) =~= Seq::empty());
                    }
                    Some(HookEvent::AgentEnd(n))
                },
                None => None,
            }
        } else {
            None
        }
    }
}

// ---------------------------------------------------------------------------
// Laws of the receiver
// ---------------------------------------------------------------------------

/// The four hook names the receiver acts on are distinct and non-empty.
proof fn lemma_hook_names()
    ensures
        "PreToolUse"@ != "PostToolUse"@,
        "PreToolUse"@ != "SubagentStart"@,
        "PreToolUse"@ != "SubagentStop"@,
        "PostToolUse"@ != "SubagentStart"@,
        "PostToolUse"@ != "SubagentStop"@,
        "SubagentStart"@ != "SubagentStop"@,
        "PreToolUse"@.len() > 0,
        "PostToolUse"@.len() > 0,
        "SubagentStart"@.len() > 0,
        "SubagentStop"@.len() > 0,
{
    reveal_strlit("PreToolUse");
    reveal_strlit("PostToolUse");
    reveal_strlit("SubagentStart");
    reveal_strlit("SubagentStop");
    assert("PreToolUse"@.len() == 10);
    assert("PostToolUse"@.len() == 11);
    assert("SubagentStart"@.len() == 13);
    assert("SubagentStop"@.len() == 12);
}

/// A payload without a session id is ignored: no event, no change.
pub proof fn law_payload_without_session_ignored(
    s: ReceiverModel,
    p: PayloadModel,
    now: Seq<char>,
    now_ns: u64,
)
    requires
        p.session_id is None,
    ensures
        hook_step(s, p, now, now_ns) == (s, Option::<EventModel>::None),
{
}

/// A hook other than the four the receiver acts on is ignored.
pub proof fn law_unknown_hook_ignored(s: ReceiverModel, p: PayloadModel, now: Seq<char>, now_ns: u64)
    requires
        text_or_empty(p.hook_event_name) != "PreToolUse"@,
        text_or_empty(p.hook_event_name) != "PostToolUse"@,
        text_or_empty(p.hook_event_name) != "SubagentStart"@,
        text_or_empty(p.hook_event_name) != "SubagentStop"@,
    ensures
        hook_step(s, p, now, now_ns) == (s, Option::<EventModel>::None),
{
}

/// A tool call's `tool.end` carries the time elapsed since its `tool.start`,
/// both are attributed to the same agent, and afterwards no start time is
/// kept for the call.
pub proof fn law_tool_call_round_trip(
    s: ReceiverModel,
    pre: PayloadModel,
    post: PayloadModel,
    t1: Seq<char>,
    ns1: u64,
    t2: Seq<char>,
    ns2: u64,
)
    requires
        pre.session_id is Some,
        post.session_id == pre.session_id,
        pre.hook_event_name == Some("PreToolUse"@),
        post.hook_event_name == Some("PostToolUse"@),
        post.tool_use_id == pre.tool_use_id,
    ensures
        ({
            let (s1, e1) = hook_step(s, pre, t1, ns1);
            let (s2, e2) = hook_step(s1, post, t2, ns2);
            &&& e1 matches Some(EventModel::ToolStart { agent_id: a1, tool_call_id: c1, .. })
            &&& e2 matches Some(EventModel::ToolEnd { agent_id: a2, tool_call_id: c2, duration_ms, .. })
            &&& a1 == a2
            &&& c1 == c2
            &&& duration_ms == elapsed_ms(ns1, ns2)
            &&& !s2.tool_starts.contains_key(c2)
            &&& s2.tool_starts == s.tool_starts.remove(c2)
            &&& s2.agent_stack == s.agent_stack
            &&& s2.agent_counter == s.agent_counter
        }),
{
    lemma_hook_names();
    let id = text_or_empty(pre.tool_use_id);
    let (s1, e1) = hook_step(s, pre, t1, ns1);
    assert(s1.tool_starts.contains_key(id));
    assert(s1.tool_starts.insert(id, ns1).remove(id) =~= s.tool_starts.remove(id)) by {
        assert(s1.tool_starts.remove(id) =~= s.tool_starts.remove(id));
    }
    assert(s1.tool_starts.remove(id) =~= s.tool_starts.remove(id));
}

/// A subagent's `agent.end` names the agent its `agent.start` named, with the
/// same parent, carries the time elapsed between them, and leaves the stack
/// of active subagents as it was before the start.
pub proof fn law_subagent_round_trip(
    s: ReceiverModel,
    start: PayloadModel,
    stop: PayloadModel,
    t1: Seq<char>,
    ns1: u64,
    t2: Seq<char>,
    ns2: u64,
)
    requires
        start.session_id is Some,
        stop.session_id is Some,
        start.hook_event_name == Some("SubagentStart"@),
        stop.hook_event_name == Some("SubagentStop"@),
    ensures
        ({
            let (s1, e1) = hook_step(s, start, t1, ns1);
            let (s2, e2) = hook_step(s1, stop, t2, ns2);
            &&& e1 matches Some(EventModel::AgentStart { agent_id: a1, parent_agent_id: p1, .. })
            &&& e2 matches Some(EventModel::AgentEnd { agent_id: a2, parent_agent_id: p2, duration_ms, status, .. })
            &&& a1 == a2
            &&& p1 == p2
            &&& duration_ms == elapsed_ms(ns1, ns2)
            &&& status == AgentStatus::Completed
            &&& s2.agent_stack == s.agent_stack
            &&& s2.tool_starts == s.tool_starts
        }),
{
    lemma_hook_names();
    let (s1, e1) = hook_step(s, start, t1, ns1);
    assert(s1.agent_stack.drop_last() =~= s.agent_stack);
}

/// The text of an optional payload field, or empty text.
pub open spec fn field_text(o: Option<Seq<char>>) -> Seq<char> {
    match o {
        Some(t) => t,
        None => Seq::empty(),
    }
}

/// The events of a tool call carry the payload's own fields: the session,
/// the call id and the tool name (each empty when absent) and the time of
/// receipt. A `tool.start` carries the input as JSON text (empty when
/// absent). A `tool.end` is an error exactly when the response says
/// `"success": false`, is never `blocked`, and lists as written the input's
/// `file_path` for a Write, Edit or MultiEdit and nothing else.
pub proof fn law_tool_events_carry_payload(s: ReceiverModel, p: PayloadModel, now: Seq<char>, now_ns: u64)
    requires
        p.session_id is Some,
        p.hook_event_name == Some("PreToolUse"@) || p.hook_event_name == Some("PostToolUse"@),
    ensures
        ({
            let e = hook_step(s, p, now, now_ns).1;
            let sid = p.session_id->0;
            let tool = field_text(p.tool_name);
            let id = field_text(p.tool_use_id);
            &&& p.hook_event_name == Some("PreToolUse"@) ==> {
                &&& e is Some && e->0 is ToolStart
                &&& e->0->ToolStart_session_id == sid
                &&& e->0->ToolStart_tool_call_id == id
                &&& e->0->ToolStart_timestamp == now
                &&& e->0->ToolStart_tool == tool
                &&& e->0->ToolStart_input == match p.tool_input {
                    Some(v) => spec_json_text(v),
                    None => Seq::empty(),
                }
            }
            &&& p.hook_event_name == Some("PostToolUse"@) ==> {
                &&& e is Some && e->0 is ToolEnd
                &&& e->0->ToolEnd_session_id == sid
                &&& e->0->ToolEnd_tool_call_id == id
                &&& e->0->ToolEnd_timestamp == now
                &&& e->0->ToolEnd_tool == tool
                &&& (e->0->ToolEnd_status == ToolStatus::Error <==> (p.tool_response is Some
                    && p.tool_response->0.get("success"@) == Some(JsonModel::Bool(false))))
                &&& e->0->ToolEnd_status != ToolStatus::Blocked
                &&& e->0->ToolEnd_files_written == if (tool == "Write"@ || tool == "Edit"@ || tool
                    == "MultiEdit"@) && p.tool_input is Some && p.tool_input->0.get("file_path"@) is Some
                    && p.tool_input->0.get("file_path"@)->0 is Str {
                    seq![p.tool_input->0.get("file_path"@)->0->Str_0]
                } else {
                    Seq::<Seq<char>>::empty()
                }
            }
        }),
{
    lemma_hook_names();
}

/// Subagents get distinct ids within a session: the n-th and the m-th
/// subagent ids differ when n and m do.
pub proof fn law_agent_ids_distinct(session_id: Seq<char>, n: nat, m: nat)
    requires
        n != m,
    ensures
        spec_agent_id(session_id, n) != spec_agent_id(session_id, m),
{
    let pre = session_id + "-agent-"@;
    if spec_agent_id(session_id, n) == spec_agent_id(session_id, m) {
        let x = spec_agent_id(session_id, n);
        assert(x.subrange(pre.len() as int, x.len() as int) =~= decimal(n));
        assert(spec_agent_id(session_id, m).subrange(pre.len() as int, x.len() as int) =~= decimal(m));
        lemma_decimal_injective(n, m);
    }
}

/// Each subagent start takes the next number: the counter grows by one and
/// the new agent's id is built from it.
pub proof fn law_subagent_numbering(s: ReceiverModel, p: PayloadModel, now: Seq<char>, now_ns: u64)
    requires
        starts_subagent(p),
        s.agent_counter < u32::MAX,
    ensures
        ({
            let (s1, e1) = hook_step(s, p, now, now_ns);
            &&& s1.agent_counter == s.agent_counter + 1
            &&& e1 matches Some(EventModel::AgentStart { agent_id, .. })
            &&& agent_id == spec_agent_id(p.session_id->0, (s.agent_counter + 1) as nat)
            &&& s1.agent_stack.last().0 == agent_id
        }),
{
    lemma_hook_names();
}

/// A stop with no subagent running is ignored.
pub proof fn law_stop_without_subagent_ignored(
    s: ReceiverModel,
    p: PayloadModel,
    now: Seq<char>,
    now_ns: u64,
)
    requires
        p.hook_event_name == Some("SubagentStop"@),
        s.agent_stack.len() == 0,
    ensures
        hook_step(s, p, now, now_ns) == (s, Option::<EventModel>::None),
{
    lemma_hook_names();
}

/// Tool events are attributed to the innermost running subagent, or to the
/// session itself when none runs.
pub proof fn law_tool_events_attributed_to_current_agent(
    s: ReceiverModel,
    p: PayloadModel,
    now: Seq<char>,
    now_ns: u64,
)
    requires
        p.session_id is Some,
        p.hook_event_name == Some("PreToolUse"@) || p.hook_event_name == Some("PostToolUse"@),
    ensures
        ({
            let (s1, e1) = hook_step(s, p, now, now_ns);
            let expected = if s.agent_stack.len() > 0 {
                s.agent_stack.last().0
            } else {
                p.session_id->0
            };
            ||| e1 matches Some(EventModel::ToolStart { agent_id, .. }) && agent_id == expected
            ||| e1 matches Some(EventModel::ToolEnd { agent_id, .. }) && agent_id == expected
        }),
{
    lemma_hook_names();
}


// ---------------------------------------------------------------------------
// Runs of payloads
// ---------------------------------------------------------------------------

/// One payload with the times it is received at.
pub struct Delivery {
    pub payload: PayloadModel,
    pub now: Seq<char>,
    pub now_ns: u64,
}

/// The receiver run over payloads in order: its last state and the events it
/// broadcast, in order.
pub open spec fn run_hooks(s: ReceiverModel, ds: Seq<Delivery>) -> (ReceiverModel, Seq<EventModel>)
    decreases ds.len(),
{
    if ds.len() == 0 {
        (s, Seq::empty())
    } else {
        let (s1, evs) = run_hooks(s, ds.drop_last());
        let d = ds.last();
        let (s2, e) = hook_step(s1, d.payload, d.now, d.now_ns);
        (
            s2,
            match e {
                Some(x) => evs.push(x),
                None => evs,
            },
        )
    }
}

/// How many payloads start a subagent.
pub open spec fn count_subagent_payloads(ds: Seq<Delivery>) -> nat
    decreases ds.len(),
{
    if ds.len() == 0 {
        0
    } else {
        count_subagent_payloads(ds.drop_last()) + if starts_subagent(ds.last().payload) {
            1nat
        } else {
            0nat
        }
    }
}

/// How many `agent.start` events there are.
pub open spec fn count_agent_starts(evs: Seq<EventModel>) -> nat
    decreases evs.len(),
{
    if evs.len() == 0 {
        0
    } else {
        count_agent_starts(evs.drop_last()) + if evs.last() is AgentStart {
            1nat
        } else {
            0nat
        }
    }
}

/// How many `agent.end` events there are.
pub open spec fn count_agent_ends(evs: Seq<EventModel>) -> nat
    decreases evs.len(),
{
    if evs.len() == 0 {
        0
    } else {
        count_agent_ends(evs.drop_last()) + if evs.last() is AgentEnd {
            1nat
        } else {
            0nat
        }
    }
}

/// The agents started and not yet ended by a run of events, in the order
/// they started: an `agent.start` opens its agent, an `agent.end` closes the
/// most recently opened one.
pub open spec fn open_agents(evs: Seq<EventModel>) -> Seq<Seq<char>>
    decreases evs.len(),
{
    if evs.len() == 0 {
        Seq::empty()
    } else {
        let o = open_agents(evs.drop_last());
        match evs.last() {
            EventModel::AgentStart { agent_id, .. } => o.push(agent_id),
            EventModel::AgentEnd { .. } => o.drop_last(),
            _ => o,
        }
    }
}

/// The ids on a stack of running subagents, innermost last.
pub open spec fn stack_ids(st: Seq<(Seq<char>, u64)>) -> Seq<Seq<char>> {
    Seq::new(st.len(), |i: int| st[i].0)
}

proof fn lemma_decimal_no_dash(n: nat)
    ensures
        forall|i: int| 0 <= i < decimal(n).len() ==> decimal(n)[i] != '-',
    decreases n,
{
    if n >= 10 {
        lemma_decimal_no_dash(n / 10);
        assert forall|i: int| 0 <= i < decimal(n).len() implies decimal(n)[i] != '-' by {
            if i < decimal(n / 10).len() {
                assert(decimal(n)[i] == decimal(n / 10)[i]);
            }
        }
    }
}

/// A subagent id gives away its number, whatever the sessions: equal ids
/// have equal numbers.
proof fn lemma_agent_id_number(s1: Seq<char>, n1: nat, s2: Seq<char>, n2: nat)
    requires
        spec_agent_id(s1, n1) == spec_agent_id(s2, n2),
    ensures
        n1 == n2,
{
    reveal_strlit("-agent-");
    let x = spec_agent_id(s1, n1);
    let d1 = decimal(n1);
    let d2 = decimal(n2);
    lemma_decimal_no_dash(n1);
    lemma_decimal_no_dash(n2);
    let l = x.len();
    assert(x =~= (s1 + "-agent-"@) + d1);
    assert(x =~= (s2 + "-agent-"@) + d2);
    assert("-agent-"@.last() == '-');
    if d1.len() < d2.len() {
        let p = l - d1.len() - 1;
        assert(x[p] == '-');
        assert(x[p] == d2[p - (l - d2.len())]);
    } else if d2.len() < d1.len() {
        let p = l - d2.len() - 1;
        assert(x[p] == '-');
        assert(x[p] == d1[p - (l - d1.len())]);
    } else {
        assert(x.subrange(l - d1.len(), l as int) =~= d1);
        assert(x.subrange(l - d2.len(), l as int) =~= d2);
        lemma_decimal_injective(n1, n2);
    }
}

proof fn lemma_run_hooks(s: ReceiverModel, ds: Seq<Delivery>)
    requires
        s.agent_stack.len() == 0,
        s.agent_counter == 0,
        count_subagent_payloads(ds) <= u32::MAX,
    ensures
        ({
            let (s2, evs) = run_hooks(s, ds);
            &&& stack_ids(s2.agent_stack) == open_agents(evs)
            &&& s2.agent_counter == count_agent_starts(evs)
            &&& count_agent_starts(evs) == count_subagent_payloads(ds)
            &&& open_agents(evs).len() + count_agent_ends(evs) == count_agent_starts(evs)
            &&& forall|i: int|
                0 <= i < evs.len() && #[trigger] evs[i] is AgentEnd ==> {
                    &&& open_agents(evs.take(i)).len() > 0
                    &&& evs[i]->AgentEnd_agent_id == open_agents(evs.take(i)).last()
                }
            &&& forall|i: int|
                0 <= i < evs.len() && #[trigger] evs[i] is AgentStart ==> evs[i]->AgentStart_agent_id
                    == spec_agent_id(
                    evs[i]->AgentStart_session_id,
                    count_agent_starts(evs.take(i)) + 1,
                )
        }),
    decreases ds.len(),
{
    if ds.len() > 0 {
        let pre = ds.drop_last();
        lemma_run_hooks(s, pre);
        lemma_hook_names();
        let (s1, evs) = run_hooks(s, pre);
        let d = ds.last();
        let p = d.payload;
        let (s2, e) = hook_step(s1, p, d.now, d.now_ns);
        let evs2 = run_hooks(s, ds).1;
        assert(run_hooks(s, ds).0 == s2);
        assert(evs.take(evs.len() as int) =~= evs);
        match e {
            Some(x) => {
                assert(evs2 == evs.push(x));
                assert forall|i: int| 0 <= i < evs.len() implies #[trigger] evs2.take(i) == evs.take(i) by {
                    assert(evs2.take(i) =~= evs.take(i));
                }
                assert(evs2.take(evs.len() as int) =~= evs);
                assert(evs2.drop_last() =~= evs);
                match x {
                    EventModel::AgentStart { .. } => {
                        assert(starts_subagent(p));
                        assert(stack_ids(s2.agent_stack) =~= stack_ids(s1.agent_stack).push(x->AgentStart_agent_id));
                    },
                    EventModel::AgentEnd { .. } => {
                        assert(!starts_subagent(p));
                        assert(stack_ids(s2.agent_stack) =~= stack_ids(s1.agent_stack).drop_last());
                        assert(stack_ids(s1.agent_stack).last() == s1.agent_stack.last().0);
                    },
                    _ => {
                        assert(!starts_subagent(p));
                    },
                }
            },
            None => {
                assert(!starts_subagent(p));
                assert(evs2 == evs);
            },
        }
    } else {
        assert(stack_ids(s.agent_stack) =~= Seq::<Seq<char>>::empty());
    }
}

/// Over any run of payloads from a fresh receiver (at most `u32::MAX` of
/// them starting subagents): the subagents running at the end are exactly
/// those started and not yet ended, in the order they started; each
/// `agent.end` names the most recently started agent not yet ended, so no
/// agent ends before it starts; as many agents run as there were starts
/// less ends; and no two `agent.start` events name the same agent.
pub proof fn law_agent_lifecycle(s: ReceiverModel, ds: Seq<Delivery>)
    requires
        s.agent_stack.len() == 0,
        s.agent_counter == 0,
        count_subagent_payloads(ds) <= u32::MAX,
    ensures
        ({
            let (s2, evs) = run_hooks(s, ds);
            &&& stack_ids(s2.agent_stack) == open_agents(evs)
            &&& s2.agent_stack.len() + count_agent_ends(evs) == count_agent_starts(evs)
            &&& forall|i: int|
                0 <= i < evs.len() && #[trigger] evs[i] is AgentEnd ==> {
                    &&& open_agents(evs.take(i)).len() > 0
                    &&& evs[i]->AgentEnd_agent_id == open_agents(evs.take(i)).last()
                }
            &&& forall|i: int, j: int|
                0 <= i < j < evs.len() && #[trigger] evs[i] is AgentStart && #[trigger] evs[j] is AgentStart
                    ==> evs[i]->AgentStart_agent_id != evs[j]->AgentStart_agent_id
        }),
{
    lemma_run_hooks(s, ds);
    let (s2, evs) = run_hooks(s, ds);
    assert(s2.agent_stack.len() == stack_ids(s2.agent_stack).len());
    assert forall|i: int, j: int|
        0 <= i < j < evs.len() && #[trigger] evs[i] is AgentStart && #[trigger] evs[j] is AgentStart
            implies evs[i]->AgentStart_agent_id != evs[j]->AgentStart_agent_id by {
        lemma_count_starts_grows(evs, i, j);
        if evs[i]->AgentStart_agent_id == evs[j]->AgentStart_agent_id {
            lemma_agent_id_number(
                evs[i]->AgentStart_session_id,
                count_agent_starts(evs.take(i)) + 1,
                evs[j]->AgentStart_session_id,
                count_agent_starts(evs.take(j)) + 1,
            );
        }
    }
}

/// A start at `i` is counted before `j`.
proof fn lemma_count_starts_grows(evs: Seq<EventModel>, i: int, j: int)
    requires
        0 <= i < j <= evs.len(),
        evs[i] is AgentStart,
    ensures
        count_agent_starts(evs.take(i)) < count_agent_starts(evs.take(j)),
    decreases j - i,
{
    assert(evs.take(j).drop_last() =~= evs.take(j - 1));
    if j - 1 > i {
        lemma_count_starts_grows(evs, i, j - 1);
    } else {
        assert(evs.take(j).last() == evs[i]);
    }
}

} // verus!

//! The session lifecycle: what xclaude announces when the wrapped CLI starts and
//! when it exits. Waiting for the process and reading its session file are
//! the caller's work; the events are decided here.

use vstd::prelude::*;
use crate::events::{
    agent_end, agent_start, is_envelope, session_end, session_start, AgentEnd, AgentStart,
    AgentStatus, Notification, SessionEnd, SessionStart, TokenUsage,
};
use crate::hooks::{opt_text, texts};
use crate::json::str_eq;
use crate::text::{has_prefix, starts_with, strip_prefix};

verus! {

/// The session file the wrapped CLI writes for its process, as far as
/// xclaude reads it.
pub struct SessionFile {
    pub session_id: String,
    pub cwd: String,
    /// Epoch milliseconds.
    pub started_at: u64,
}

/// The model named on the command line: the argument after the first
/// `--model`, or the value of the first `--model=...`.
pub open spec fn spec_extract_model(args: Seq<Seq<char>>, i: int) -> Option<Seq<char>>
    decreases args.len() - i,
{
    if i < 0 || i >= args.len() {
        None
    } else if args[i] == "--model"@ {
        if i + 1 < args.len() {
            Some(args[i + 1])
        } else {
            None
        }
    } else if has_prefix(args[i], "--model="@) {
        Some(args[i].subrange("--model="@.len() as int, args[i].len() as int))
    } else {
        spec_extract_model(args, i + 1)
    }
}

/// The model named on the command line, if any.
pub fn extract_model(args: &[String]) -> (r: Option<String>)
    ensures
        opt_text(r) == spec_extract_model(texts(args@), 0),
{
    let ghost a = texts(args@);
    let mut i: usize = 0;
    while i < args.len()
        invariant
            i <= args.len(),
            a == texts(args@),
            spec_extract_model(a, 0) == spec_extract_model(a, i as int),
        decreases args.len() - i,
    {
        let arg = args[i].as_str();
        if str_eq(arg, "--model") {
            if i + 1 < args.len() {
                return Some(args[i + 1].clone());
            }
            return None;
        }
        match strip_prefix(arg, "--model=") {
            Some(val) => {
                return Some(String::from_str(val));
            },
            None => {},
        }
        i = i + 1;
    }
    None
}

/// The arguments that are flags (begin with `--`), in order.
pub open spec fn spec_flags(args: Seq<Seq<char>>) -> Seq<Seq<char>>
    decreases args.len(),
{
    if args.len() == 0 {
        Seq::empty()
    } else {
        let rest = spec_flags(args.drop_last());
        if has_prefix(args.last(), "--"@) {
            rest.push(args.last())
        } else {
            rest
        }
    }
}

/// The arguments that begin with `--`.
pub fn flags_of(args: &[String]) -> (r: Vec<String>)
    ensures
        texts(r@) == spec_flags(texts(args@)),
{
    let ghost a = texts(args@);
    let mut r: Vec<String> = Vec::new();
    let mut i: usize = 0;
    while i < args.len()
        invariant
            i <= args.len(),
            a == texts(args@),
            texts(r@) == spec_flags(a.take(i as int)),
        decreases args.len() - i,
    {
        proof {
            assert(a.take(i + 1).drop_last() =~= a.take(i as int));
        }
        if starts_with(args[i].as_str(), "--") {
            let ghost before = texts(r@);
            r.push(args[i].clone());
            proof {
                assert(texts(r@) =~= before.push(a[i as int]));
            }
        }
        i = i + 1;
    }
    proof {
        assert(a.take(args.len() as int) =~= a);
    }
    r
}

/// The RFC 3339 text (UTC, milliseconds, `Z`) that chrono writes for an
/// instant given in epoch milliseconds, or `None` outside chrono's range.
pub uninterp spec fn spec_rfc3339_millis(ms: i64) -> Option<Seq<char>>;

/// `DateTime::from_timestamp_millis(ms)` written with
/// `to_rfc3339_opts(SecondsFormat::Millis, true)`; `None` where chrono has
/// no such instant. Claims the result is what `spec_rfc3339_millis` names.
#[verifier::external_body]
fn rfc3339_millis(ms: i64) -> (r: Option<String>)
    ensures
        opt_text(r) == spec_rfc3339_millis(ms),
{
    chrono::DateTime::from_timestamp_millis(ms).map(
        |d| d.to_rfc3339_opts(chrono::SecondsFormat::Millis, true),
    )
}

/// The RFC 3339 text of an instant in epoch milliseconds.
pub open spec fn spec_epoch_ms_to_iso(ms: u64) -> Option<Seq<char>> {
    if ms > i64::MAX as u64 {
        None
    } else {
        spec_rfc3339_millis(ms as i64)
    }
}

/// An instant in epoch milliseconds as RFC 3339 text; `None` beyond the
/// range of times chrono represents.
pub fn epoch_ms_to_iso(ms: u64) -> (r: Option<String>)
    ensures
        opt_text(r) == spec_epoch_ms_to_iso(ms),
{
    if ms > i64::MAX as u64 {
        None
    } else {
        rfc3339_millis(ms as i64)
    }
}

/// The model a session runs: the one named on the command line, else the
/// wrapped CLI's default model.
pub open spec fn spec_session_model(args: Seq<Seq<char>>, default_model: Seq<char>) -> Seq<char> {
    match spec_extract_model(args, 0) {
        Some(m) => m,
        None => default_model,
    }
}

/// The id of a session's root agent.
pub open spec fn root_agent_id(session_id: Seq<char>) -> Seq<char> {
    session_id + "-agent-0"@
}

/// The announcements of a starting session: `session.start`, then
/// `agent.start` for its root agent. `None` when the session's start time
/// has no RFC 3339 form.
pub fn session_opening(args: &[String], file: &SessionFile, default_model: &str) -> (r: Option<
    (Notification<SessionStart>, Notification<AgentStart>),
>)
    ensures
        match r {
            Some((s, a)) => {
                let started = spec_epoch_ms_to_iso(file.started_at);
                &&& started is Some
                &&& is_envelope(s, "session.start"@)
                &&& s.params.session_id@ == file.session_id@
                &&& s.params.timestamp@ == started->0
                &&& s.params.context.cwd@ == file.cwd@
                &&& s.params.context.model@ == spec_session_model(texts(args@), default_model@)
                &&& texts(s.params.context.flags@) == spec_flags(texts(args@))
                &&& is_envelope(a, "agent.start"@)
                &&& a.params.session_id@ == file.session_id@
                &&& a.params.agent_id@ == root_agent_id(file.session_id@)
                &&& a.params.parent_agent_id is None
                &&& a.params.timestamp@ == started->0
                &&& a.params.context.cwd@ == file.cwd@
                &&& a.params.context.prompt_summary@ == Seq::<char>::empty()
            },
            None => spec_epoch_ms_to_iso(file.started_at) is None,
        },
{
    let started_at = match epoch_ms_to_iso(file.started_at) {
        Some(t) => t,
        None => return None,
    };
    let model = match extract_model(args) {
        Some(m) => m,
        None => String::from_str(default_model),
    };
    let flags = flags_of(args);
    let mut agent_id = file.session_id.clone();
    agent_id.append("-agent-0");
    let s = session_start(
        file.session_id.clone(),
        started_at.clone(),
        file.cwd.clone(),
        model,
        flags,
    );
    let a = agent_start(
        file.session_id.clone(),
        agent_id,
        None,
        started_at,
        file.cwd.clone(),
        String::new(),
    );
    Some((s, a))
}

/// The announcements of an ending session: `agent.end` for the root agent,
/// then `session.end`, both with the time since the process was spawned
/// (zero if the clock went back) and no counts.
pub fn session_closing(
    session_id: &str,
    agent_end_ts: String,
    session_end_ts: String,
    spawn_ms: u64,
    now_ms: u64,
    exit_code: i32,
) -> (r: (Notification<AgentEnd>, Notification<SessionEnd>))
    ensures
        ({
            let (a, s) = r;
            let duration = if now_ms >= spawn_ms {
                (now_ms - spawn_ms) as u64
            } else {
                0u64
            };
            &&& is_envelope(a, "agent.end"@)
            &&& a.params.session_id@ == session_id@
            &&& a.params.agent_id@ == root_agent_id(session_id@)
            &&& a.params.parent_agent_id is None
            &&& a.params.timestamp == agent_end_ts
            &&& a.params.duration_ms == duration
            &&& a.params.status == AgentStatus::Completed
            &&& a.params.context.files_read@.len() == 0
            &&& a.params.context.files_written@.len() == 0
            &&& a.params.context.tool_calls == 0
            &&& a.params.context.tokens == TokenUsage { input: 0, output: 0 }
            &&& is_envelope(s, "session.end"@)
            &&& s.params.session_id@ == session_id@
            &&& s.params.timestamp == session_end_ts
            &&& s.params.duration_ms == duration
            &&& s.params.exit_code == exit_code
            &&& s.params.context.total_agents == 0
            &&& s.params.context.total_tool_calls == 0
            &&& s.params.context.total_tokens == TokenUsage { input: 0, output: 0 }
        }),
{
    let duration_ms = now_ms.saturating_sub(spawn_ms);
    let mut agent_id = String::from_str(session_id);
    agent_id.append("-agent-0");
    let a = agent_end(
        String::from_str(session_id),
        agent_id,
        None,
        agent_end_ts,
        duration_ms,
        AgentStatus::Completed,
        Vec::new(),
        Vec::new(),
        0,
        TokenUsage { input: 0, output: 0 },
    );
    let s = session_end(
        String::from_str(session_id),
        session_end_ts,
        duration_ms,
        exit_code,
        0,
        0,
        TokenUsage { input: 0, output: 0 },
    );
    (a, s)
}

} // verus!

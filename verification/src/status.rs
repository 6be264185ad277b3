//! The status report of the database: live sessions, their agents and the
//! last tool calls, as fixed-width text lines. Querying the database is the
//! caller's work; this module lays the rows out.

use vstd::prelude::*;
use crate::hooks::opt_text;
use crate::text::{i64_to_decimal, signed_decimal};

verus! {

/// `n` copies of a character.
pub open spec fn repeat_char(c: char, n: nat) -> Seq<char> {
    Seq::new(n, |i: int| c)
}

/// The text left-aligned in a field of `w` characters (`{:<w}`): padded
/// with spaces on the right, never cut.
pub open spec fn pad_to(s: Seq<char>, w: nat) -> Seq<char> {
    if s.len() >= w {
        s
    } else {
        s + repeat_char(' ', (w - s.len()) as nat)
    }
}

/// Optional text, or `-` where there is none.
pub open spec fn or_dash(o: Option<Seq<char>>) -> Seq<char> {
    match o {
        Some(s) => s,
        None => "-"@,
    }
}

/// The status shown for a tool call's error flag.
pub open spec fn status_label(is_error: Option<i64>) -> Seq<char> {
    match is_error {
        Some(1) => "FAIL"@,
        Some(0) => "pass"@,
        _ => "-"@,
    }
}

/// A live session: its id, directory and start time.
pub struct SessionRow {
    pub session_id: String,
    pub cwd: Option<String>,
    pub started_at: Option<String>,
}

/// An agent of a live session.
pub struct AgentRow {
    pub agent_id: String,
    pub parent_agent_id: Option<String>,
    pub agent_type: Option<String>,
    pub started_at: Option<String>,
}

/// A recorded tool call; the times are the `HH:MM:SS` part of the stamps.
pub struct ToolRow {
    pub tool_name: Option<String>,
    pub agent_id: Option<String>,
    pub called: Option<String>,
    pub finished: Option<String>,
    pub ctx_added: Option<i64>,
    pub is_error: Option<i64>,
}

/// Four columns separated by ` | `, the last one unpadded.
pub open spec fn cols3(a: Seq<char>, wa: nat, b: Seq<char>, wb: nat, c: Seq<char>) -> Seq<char> {
    pad_to(a, wa) + " | "@ + pad_to(b, wb) + " | "@ + c
}

pub open spec fn session_line(r: SessionRow) -> Seq<char> {
    cols3(r.session_id@, 36, or_dash(opt_text(r.cwd)), 30, or_dash(opt_text(r.started_at)))
}

pub open spec fn agent_line(r: AgentRow) -> Seq<char> {
    pad_to(r.agent_id@, 36) + " | "@ + pad_to(or_dash(opt_text(r.parent_agent_id)), 36) + " | "@
        + pad_to(or_dash(opt_text(r.agent_type)), 10) + " | "@ + or_dash(opt_text(r.started_at))
}

/// The token count of a tool row, or `-`.
pub open spec fn tokens_text(n: Option<i64>) -> Seq<char> {
    match n {
        Some(v) => signed_decimal(v as int),
        None => "-"@,
    }
}

pub open spec fn tool_line(r: ToolRow) -> Seq<char> {
    pad_to(or_dash(opt_text(r.tool_name)), 15) + " | "@ + pad_to(or_dash(opt_text(r.agent_id)), 36)
        + " | "@ + pad_to(or_dash(opt_text(r.called)), 8) + " | "@ + pad_to(
        or_dash(opt_text(r.finished)),
        8,
    ) + " | "@ + pad_to(tokens_text(r.ctx_added), 7) + " | "@ + status_label(r.is_error)
}

pub open spec fn session_lines(rows: Seq<SessionRow>) -> Seq<Seq<char>> {
    Seq::new(rows.len(), |i: int| session_line(rows[i]))
}

pub open spec fn agent_lines(rows: Seq<AgentRow>) -> Seq<Seq<char>> {
    Seq::new(rows.len(), |i: int| agent_line(rows[i]))
}

pub open spec fn tool_lines(rows: Seq<ToolRow>) -> Seq<Seq<char>> {
    Seq::new(rows.len(), |i: int| tool_line(rows[i]))
}

/// The whole report, line by line; a line that starts with a newline is
/// preceded by an empty line when printed.
pub open spec fn report(
    sessions: Seq<SessionRow>,
    agents: Seq<AgentRow>,
    tools: Seq<ToolRow>,
    db_path: Seq<char>,
) -> Seq<Seq<char>> {
    seq![
        "\n=== SESSIONS ==="@,
        cols3("SESSION ID"@, 36, "DIRECTORY"@, 30, "STARTED AT"@),
        repeat_char('-', 95),
    ] + session_lines(sessions) + seq![
        "\n=== AGENTS ==="@,
        pad_to("AGENT ID"@, 36) + " | "@ + pad_to("PARENT ID"@, 36) + " | "@ + pad_to("TYPE"@, 10)
            + " | "@ + "STARTED AT"@,
        repeat_char('-', 110),
    ] + agent_lines(agents) + seq![
        "\n=== LAST 10 TOOLS ==="@,
        pad_to("TOOL"@, 15) + " | "@ + pad_to("AGENT ID"@, 36) + " | "@ + pad_to("CALLED"@, 8)
            + " | "@ + pad_to("FINISHED"@, 8) + " | "@ + pad_to("TOKENS"@, 7) + " | "@ + "STATUS"@,
        repeat_char('-', 95),
    ] + tool_lines(tools) + seq!["\nxclaude db saved at: "@ + db_path]
}

/// The text left-aligned in a field of `w` characters.
pub fn pad_right(s: &str, w: usize) -> (r: String)
    ensures
        r@ == pad_to(s@, w as nat),
{
    let n = s.unicode_len();
    let mut r = String::from_str(s);
    if n >= w {
        return r;
    }
    let mut k: usize = n;
    proof {
        reveal_strlit(" ");
        assert(r@ =~= s@ + repeat_char(' ', 0));
    }
    while k < w
        invariant
            n == s@.len(),
            n <= k <= w,
            r@ == s@ + repeat_char(' ', (k - n) as nat),
        decreases w - k,
    {
        r.append(" ");
        proof {
            reveal_strlit(" ");
            assert(repeat_char(' ', (k - n) as nat).push(' ') =~= repeat_char(' ', (k + 1 - n) as nat));
        }
        k = k + 1;
    }
    r
}

/// A line of `n` copies of `-`.
fn dash_line(n: usize) -> (r: String)
    ensures
        r@ == repeat_char('-', n as nat),
{
    let mut r = String::new();
    let mut k: usize = 0;
    proof {
        reveal_strlit("-");
        assert(r@ =~= repeat_char('-', 0));
    }
    while k < n
        invariant
            k <= n,
            r@ == repeat_char('-', k as nat),
        decreases n - k,
    {
        r.append("-");
        proof {
            reveal_strlit("-");
            assert(repeat_char('-', k as nat).push('-') =~= repeat_char('-', (k + 1) as nat));
        }
        k = k + 1;
    }
    r
}

/// Optional text, or `-`.
fn text_or_dash(o: &Option<String>) -> (r: String)
    ensures
        r@ == or_dash(opt_text(*o)),
{
    match o {
        Some(s) => s.clone(),
        None => String::from_str("-"),
    }
}

/// The status shown for a tool call's error flag: `FAIL` for 1, `pass` for
/// 0, else `-`.
pub fn tool_status_label(is_error: Option<i64>) -> (r: &'static str)
    ensures
        r@ == status_label(is_error),
{
    match is_error {
        Some(1) => "FAIL",
        Some(0) => "pass",
        _ => "-",
    }
}

/// Appends ` | ` and a field.
fn push_col(line: &mut String, field: &str)
    ensures
        final(line)@ == old(line)@ + " | "@ + field@,
{
    line.append(" | ");
    line.append(field);
}

fn format_session(r: &SessionRow) -> (out: String)
    ensures
        out@ == session_line(*r),
{
    let mut line = pad_right(r.session_id.as_str(), 36);
    let cwd = text_or_dash(&r.cwd);
    push_col(&mut line, pad_right(cwd.as_str(), 30).as_str());
    push_col(&mut line, text_or_dash(&r.started_at).as_str());
    line
}

fn format_agent(r: &AgentRow) -> (out: String)
    ensures
        out@ == agent_line(*r),
{
    let mut line = pad_right(r.agent_id.as_str(), 36);
    push_col(&mut line, pad_right(text_or_dash(&r.parent_agent_id).as_str(), 36).as_str());
    push_col(&mut line, pad_right(text_or_dash(&r.agent_type).as_str(), 10).as_str());
    push_col(&mut line, text_or_dash(&r.started_at).as_str());
    line
}

fn format_tool(r: &ToolRow) -> (out: String)
    ensures
        out@ == tool_line(*r),
{
    let mut line = pad_right(text_or_dash(&r.tool_name).as_str(), 15);
    push_col(&mut line, pad_right(text_or_dash(&r.agent_id).as_str(), 36).as_str());
    push_col(&mut line, pad_right(text_or_dash(&r.called).as_str(), 8).as_str());
    push_col(&mut line, pad_right(text_or_dash(&r.finished).as_str(), 8).as_str());
    let tokens = match r.ctx_added {
        Some(v) => i64_to_decimal(v),
        None => String::from_str("-"),
    };
    push_col(&mut line, pad_right(tokens.as_str(), 7).as_str());
    push_col(&mut line, tool_status_label(r.is_error));
    line
}

/// The status report of the database, one entry per printed line, from the
/// rows of the three queries and the database's path.
pub fn status_report(
    sessions: &Vec<SessionRow>,
    agents: &Vec<AgentRow>,
    tools: &Vec<ToolRow>,
    db_path: &str,
) -> (r: Vec<String>)
    ensures
        crate::sorting::texts_of(r@) == report(sessions@, agents@, tools@, db_path@),
{
    let mut out: Vec<String> = Vec::new();
    out.push(String::from_str("\n=== SESSIONS ==="));
    let mut h = pad_right("SESSION ID", 36);
    push_col(&mut h, pad_right("DIRECTORY", 30).as_str());
    push_col(&mut h, "STARTED AT");
    out.push(h);
    let d = dash_line(95);
    let ghost hv = h@;
    out.push(d);
    proof {
        assert(crate::sorting::texts_of(out@) =~= seq!["\n=== SESSIONS ==="@, hv, repeat_char('-', 95)]);
    }
    let ghost p1 = crate::sorting::texts_of(out@);
    let mut i: usize = 0;
    while i < sessions.len()
        invariant
            i <= sessions.len(),
            crate::sorting::texts_of(out@) == p1 + session_lines(sessions@.take(i as int)),
        decreases sessions.len() - i,
    {
        let line = format_session(&sessions[i]);
        let ghost before = crate::sorting::texts_of(out@);
        out.push(line);
        proof {
            assert(crate::sorting::texts_of(out@) =~= before.push(session_line(sessions@[i as int])));
            assert(session_lines(sessions@.take(i + 1)) =~= session_lines(sessions@.take(i as int)).push(
                session_line(sessions@[i as int]),
            ));
            assert(crate::sorting::texts_of(out@) =~= p1 + session_lines(sessions@.take(i + 1)));
        }
        i = i + 1;
    }
    let ghost q1 = crate::sorting::texts_of(out@);
    out.push(String::from_str("\n=== AGENTS ==="));
    let mut h = pad_right("AGENT ID", 36);
    push_col(&mut h, pad_right("PARENT ID", 36).as_str());
    push_col(&mut h, pad_right("TYPE", 10).as_str());
    push_col(&mut h, "STARTED AT");
    out.push(h);
    let d = dash_line(110);
    let ghost hv = h@;
    out.push(d);
    proof {
        assert(crate::sorting::texts_of(out@) =~= q1 + seq!["\n=== AGENTS ==="@, hv, repeat_char('-', 110)]);
    }
    let ghost p2 = crate::sorting::texts_of(out@);
    let mut i: usize = 0;
    while i < agents.len()
        invariant
            i <= agents.len(),
            crate::sorting::texts_of(out@) == p2 + agent_lines(agents@.take(i as int)),
        decreases agents.len() - i,
    {
        let line = format_agent(&agents[i]);
        let ghost before = crate::sorting::texts_of(out@);
        out.push(line);
        proof {
            assert(crate::sorting::texts_of(out@) =~= before.push(agent_line(agents@[i as int])));
            assert(agent_lines(agents@.take(i + 1)) =~= agent_lines(agents@.take(i as int)).push(
                agent_line(agents@[i as int]),
            ));
            assert(crate::sorting::texts_of(out@) =~= p2 + agent_lines(agents@.take(i + 1)));
        }
        i = i + 1;
    }
    let ghost q2 = crate::sorting::texts_of(out@);
    out.push(String::from_str("\n=== LAST 10 TOOLS ==="));
    let mut h = pad_right("TOOL", 15);
    push_col(&mut h, pad_right("AGENT ID", 36).as_str());
    push_col(&mut h, pad_right("CALLED", 8).as_str());
    push_col(&mut h, pad_right("FINISHED", 8).as_str());
    push_col(&mut h, pad_right("TOKENS", 7).as_str());
    push_col(&mut h, "STATUS");
    out.push(h);
    let d = dash_line(95);
    let ghost hv = h@;
    out.push(d);
    proof {
        assert(crate::sorting::texts_of(out@) =~= q2 + seq!["\n=== LAST 10 TOOLS ==="@, hv, repeat_char('-', 95)]);
    }
    let ghost p3 = crate::sorting::texts_of(out@);
    let mut i: usize = 0;
    while i < tools.len()
        invariant
            i <= tools.len(),
            crate::sorting::texts_of(out@) == p3 + tool_lines(tools@.take(i as int)),
        decreases tools.len() - i,
    {
        let line = format_tool(&tools[i]);
        let ghost before = crate::sorting::texts_of(out@);
        out.push(line);
        proof {
            assert(crate::sorting::texts_of(out@) =~= before.push(tool_line(tools@[i as int])));
            assert(tool_lines(tools@.take(i + 1)) =~= tool_lines(tools@.take(i as int)).push(
                tool_line(tools@[i as int]),
            ));
            assert(crate::sorting::texts_of(out@) =~= p3 + tool_lines(tools@.take(i + 1)));
        }
        i = i + 1;
    }
    let mut last = String::from_str("\nxclaude db saved at: ");
    last.append(db_path);
    let ghost q3 = crate::sorting::texts_of(out@);
    out.push(last);
    proof {
        assert(session_lines(sessions@.take(sessions.len() as int)) =~= session_lines(sessions@));
        assert(agent_lines(agents@.take(agents.len() as int)) =~= agent_lines(agents@));
        assert(tool_lines(tools@.take(tools.len() as int)) =~= tool_lines(tools@));
        assert(crate::sorting::texts_of(out@) =~= q3.push("\nxclaude db saved at: "@ + db_path@));
        assert(crate::sorting::texts_of(out@) =~= report(sessions@, agents@, tools@, db_path@));
    }
    out
}

} // verus!

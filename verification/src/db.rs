//! The SQLite record of sessions, agents and tool calls: where it lives, and
//! which statements each hook event writes. Opening the database and running
//! the statements are the caller's work.

use vstd::prelude::*;
use crate::hooks::text_or_empty;
use crate::json::{opt_bool, opt_get, opt_i64, opt_str, str_eq, Json, JsonModel, JsonNumber, NumberModel};
use crate::json_text::{json_to_text, spec_json_text};
use crate::text::{has_prefix, join_path, path_join};
use crate::textops::{fitting_prefix, trim, trim_text, truncate_bytes};
use crate::tool_calls::byte_len;

verus! {

/// The database file under a home directory: `<home>/.xclaude/xclaude.db`.
pub fn db_path(home: &str) -> (r: String)
    ensures
        r@ == path_join(path_join(home@, ".xclaude"@), "xclaude.db"@),
{
    let d = join_path(home, ".xclaude");
    join_path(d.as_str(), "xclaude.db")
}

// ---------------------------------------------------------------------------
// Input summaries
// ---------------------------------------------------------------------------

/// A text member, or empty text.
pub open spec fn str_or_empty(v: JsonModel, k: Seq<char>) -> Seq<char> {
    text_or_empty(opt_str(v.get(k)))
}

/// The one-line summary of a tool call's input, before truncation: the
/// command of a Bash call, the file of a Read, Write or Edit, the pattern and
/// path of a Glob, the pattern of a Grep, the subagent type and prompt of an
/// Agent call, else the input's JSON text.
pub open spec fn spec_summary_text(tool: Seq<char>, input: JsonModel) -> Seq<char> {
    if tool == "Bash"@ {
        str_or_empty(input, "command"@)
    } else if tool == "Read"@ || tool == "Write"@ || tool == "Edit"@ {
        str_or_empty(input, "file_path"@)
    } else if tool == "Glob"@ {
        trim(str_or_empty(input, "pattern"@) + "  "@ + str_or_empty(input, "path"@))
    } else if tool == "Grep"@ {
        str_or_empty(input, "pattern"@)
    } else if tool == "Agent"@ {
        "["@ + match opt_str(input.get("subagent_type"@)) {
            Some(t) => t,
            None => "?"@,
        } + "] "@ + str_or_empty(input, "prompt"@)
    } else {
        spec_json_text(input)
    }
}

fn str_member_or_empty(v: &Json, k: &str) -> (r: String)
    ensures
        r@ == str_or_empty(v@, k@),
{
    match v.get(k) {
        Some(x) => match x.as_str() {
            Some(s) => String::from_str(s),
            None => String::new(),
        },
        None => String::new(),
    }
}

/// The summary of a tool call's input, cut at the last character boundary
/// within its first 256 bytes.
pub fn input_summary(tool_name: &str, input: &Json) -> (r: String)
    ensures
        r@ == spec_input_summary(tool_name@, input@),
{
    let s = if str_eq(tool_name, "Bash") {
        str_member_or_empty(input, "command")
    } else if str_eq(tool_name, "Read") || str_eq(tool_name, "Write") || str_eq(tool_name, "Edit") {
        str_member_or_empty(input, "file_path")
    } else if str_eq(tool_name, "Glob") {
        let mut g = str_member_or_empty(input, "pattern");
        g.append("  ");
        let p = str_member_or_empty(input, "path");
        g.append(p.as_str());
        trim_text(g.as_str())
    } else if str_eq(tool_name, "Grep") {
        str_member_or_empty(input, "pattern")
    } else if str_eq(tool_name, "Agent") {
        let mut a = String::from_str("[");
        match input.get("subagent_type") {
            Some(x) => match x.as_str() {
                Some(t) => a.append(t),
                None => a.append("?"),
            },
            None => a.append("?"),
        }
        a.append("] ");
        let p = str_member_or_empty(input, "prompt");
        a.append(p.as_str());
        a
    } else {
        json_to_text(input)
    };
    truncate_bytes(s.as_str(), 256)
}

// ---------------------------------------------------------------------------
// Statements
// ---------------------------------------------------------------------------

/// A value bound to a statement parameter.
pub enum SqlValue {
    Null,
    Text(String),
    Integer(i64),
    /// A REAL: the JSON number, read as a floating-point number.
    Real(JsonNumber),
}

/// The model of a bound value.
pub enum SqlModel {
    Null,
    Text(Seq<char>),
    Integer(i64),
    Real(NumberModel),
}

impl View for SqlValue {
    type V = SqlModel;

    open spec fn view(&self) -> SqlModel {
        match self {
            SqlValue::Null => SqlModel::Null,
            SqlValue::Text(s) => SqlModel::Text(s@),
            SqlValue::Integer(n) => SqlModel::Integer(*n),
            SqlValue::Real(n) => SqlModel::Real(n@),
        }
    }
}

/// A statement with its parameters, in order.
pub struct SqlStatement {
    pub sql: String,
    pub params: Vec<SqlValue>,
}

/// The model of a statement.
pub struct StatementModel {
    pub sql: Seq<char>,
    pub params: Seq<SqlModel>,
}

impl View for SqlStatement {
    type V = StatementModel;

    open spec fn view(&self) -> StatementModel {
        StatementModel {
            sql: self.sql@,
            params: Seq::new(self.params@.len(), |i: int| self.params@[i]@),
        }
    }
}

/// The models of a list of statements.
pub open spec fn statements_model(v: Seq<SqlStatement>) -> Seq<StatementModel> {
    Seq::new(v.len(), |i: int| v[i]@)
}

/// Optional text as a parameter: the text, or NULL.
pub open spec fn text_or_null(o: Option<Seq<char>>) -> SqlModel {
    match o {
        Some(s) => SqlModel::Text(s),
        None => SqlModel::Null,
    }
}

/// An optional integer as a parameter.
pub open spec fn int_or_null(o: Option<i64>) -> SqlModel {
    match o {
        Some(n) => SqlModel::Integer(n),
        None => SqlModel::Null,
    }
}

/// A JSON value read as a REAL (`Value::as_f64`): a number, else NULL.
pub open spec fn real_or_null(v: Option<JsonModel>) -> SqlModel {
    match v {
        Some(JsonModel::Number(n)) => SqlModel::Real(n),
        _ => SqlModel::Null,
    }
}

/// `ms / 1000` rounded toward zero, as Rust's integer division does.
pub open spec fn div_toward_zero_1000(ms: i64) -> i64 {
    if ms >= 0 {
        (ms / 1000) as i64
    } else {
        (-((-ms) / 1000)) as i64
    }
}

pub open spec fn stmt(sql: Seq<char>, params: Seq<SqlModel>) -> StatementModel {
    StatementModel { sql, params }
}

pub open spec fn sql_insert_session() -> Seq<char> {
    "INSERT OR IGNORE INTO sessions (session_id) VALUES (?1)"@
}

pub open spec fn sql_start_session() -> Seq<char> {
    "UPDATE sessions SET slug=?1, model=?2, cwd=?3, started_at=?4 WHERE session_id=?5"@
}

pub open spec fn sql_main_agent() -> Seq<char> {
    "INSERT OR IGNORE INTO agents (agent_id, session_id, parent_agent_id, agent_type, started_at) VALUES (?1, ?2, NULL, ?3, ?4)"@
}

pub open spec fn sql_subagent() -> Seq<char> {
    "INSERT OR IGNORE INTO agents (agent_id, session_id, parent_agent_id, agent_type, started_at) VALUES (?1, ?2, ?3, ?4, ?5)"@
}

pub open spec fn sql_tool_call() -> Seq<char> {
    "INSERT OR IGNORE INTO tools (tool_use_id, session_id, agent_id, tool_name, input_summary, called_at) VALUES (?1, ?2, ?3, ?4, ?5, ?6)"@
}

pub open spec fn sql_tool_return() -> Seq<char> {
    "UPDATE tools SET returned_at=?1, result_chars=?2, is_error=?3 WHERE tool_use_id=?4"@
}

pub open spec fn sql_agent_stop() -> Seq<char> {
    "UPDATE agents SET wall_sec=?1, tool_call_count=?2, error_count=?3, output_tokens=?4, cache_hit_rate=?5, stopped_at=?6 WHERE agent_id=?7"@
}

pub open spec fn sql_turn_stop() -> Seq<char> {
    "UPDATE sessions SET cache_hit_rate=?1 WHERE session_id=?2"@
}

pub open spec fn sql_session_end() -> Seq<char> {
    "UPDATE sessions SET ended_at=?1, end_reason=?2, total_out_tokens=?3, cache_hit_rate=?4, subagent_count=?5 WHERE session_id=?6"@
}

/// The statements an event-specific write makes, after the session row is
/// ensured.
pub open spec fn event_statements(event: Seq<char>, d: JsonModel, now: Seq<char>) -> Seq<
    StatementModel,
> {
    let sid = str_or_empty(d, "session_id"@);
    if event == "SessionStart"@ {
        seq![
            stmt(
                sql_start_session(),
                seq![
                    text_or_null(opt_str(d.get("slug"@))),
                    text_or_null(opt_str(d.get("model"@))),
                    text_or_null(opt_str(d.get("cwd"@))),
                    SqlModel::Text(now),
                    SqlModel::Text(sid),
                ],
            ),
            stmt(
                sql_main_agent(),
                seq![
                    SqlModel::Text(sid),
                    SqlModel::Text(sid),
                    SqlModel::Text("main"@),
                    SqlModel::Text(now),
                ],
            ),
        ]
    } else if event == "SubagentStart"@ {
        let agent_id = str_or_empty(d, "agent_id"@);
        if agent_id.len() == 0 {
            Seq::empty()
        } else {
            seq![
                stmt(
                    sql_subagent(),
                    seq![
                        SqlModel::Text(agent_id),
                        SqlModel::Text(sid),
                        SqlModel::Text(sid),
                        text_or_null(opt_str(d.get("agent_type"@))),
                        SqlModel::Text(now),
                    ],
                ),
            ]
        }
    } else if event == "PreToolUse"@ {
        let name = str_or_empty(d, "tool_name"@);
        let input = match d.get("tool_input"@) {
            Some(v) => v,
            None => JsonModel::Null,
        };
        let agent_id = match opt_str(d.get("agent_id"@)) {
            Some(a) => a,
            None => sid,
        };
        let summary = spec_input_summary(name, input);
        seq![
            stmt(
                sql_tool_call(),
                seq![
                    text_or_null(opt_str(d.get("tool_use_id"@))),
                    SqlModel::Text(sid),
                    SqlModel::Text(agent_id),
                    SqlModel::Text(name),
                    SqlModel::Text(summary),
                    SqlModel::Text(now),
                ],
            ),
        ]
    } else if event == "PostToolUse"@ {
        let resp = d.get("tool_response"@);
        let is_err: i64 = if opt_bool(opt_get(resp, "is_error"@)) == Some(true) {
            1
        } else {
            0
        };
        let rchars = match resp {
            Some(r) => SqlModel::Integer(byte_len(spec_json_text(r)) as i64),
            None => SqlModel::Null,
        };
        seq![
            stmt(
                sql_tool_return(),
                seq![
                    SqlModel::Text(now),
                    rchars,
                    SqlModel::Integer(is_err),
                    text_or_null(opt_str(d.get("tool_use_id"@))),
                ],
            ),
        ]
    } else if event == "SubagentStop"@ {
        let stats = d.get("stats"@);
        seq![
            stmt(
                sql_agent_stop(),
                seq![
                    int_or_null(
                        match opt_i64(opt_get(stats, "wall_time_ms"@)) {
                            Some(ms) => Some(div_toward_zero_1000(ms)),
                            None => None,
                        },
                    ),
                    int_or_null(opt_i64(opt_get(stats, "tool_calls"@))),
                    int_or_null(opt_i64(opt_get(stats, "errors"@))),
                    int_or_null(opt_i64(opt_get(stats, "output_tokens"@))),
                    real_or_null(opt_get(stats, "cache_hit_rate"@)),
                    SqlModel::Text(now),
                    SqlModel::Text(str_or_empty(d, "agent_id"@)),
                ],
            ),
        ]
    } else if event == "Stop"@ {
        seq![
            stmt(
                sql_turn_stop(),
                seq![real_or_null(d.get("cache_hit_rate"@)), SqlModel::Text(sid)],
            ),
        ]
    } else if event == "SessionEnd"@ {
        let stats = d.get("stats"@);
        seq![
            stmt(
                sql_session_end(),
                seq![
                    SqlModel::Text(now),
                    text_or_null(opt_str(d.get("reason"@))),
                    int_or_null(opt_i64(opt_get(d.get("usage"@), "output_tokens"@))),
                    real_or_null(opt_get(stats, "cache_hit_rate"@)),
                    int_or_null(opt_i64(opt_get(stats, "subagents"@))),
                    SqlModel::Text(sid),
                ],
            ),
        ]
    } else {
        Seq::empty()
    }
}

/// The summary `input_summary` gives: the summary text cut at the last
/// character boundary within 256 bytes.
pub open spec fn spec_input_summary(tool: Seq<char>, input: JsonModel) -> Seq<char> {
    fitting_prefix(spec_summary_text(tool, input), 256)
}

fn statement(sql: &str, params: Vec<SqlValue>) -> (r: SqlStatement)
    ensures
        r@ == stmt(sql@, Seq::new(params@.len(), |i: int| params@[i]@)),
{
    SqlStatement { sql: String::from_str(sql), params }
}

pub open spec fn values_of(v: Seq<SqlValue>) -> Seq<SqlModel> {
    Seq::new(v.len(), |i: int| v[i]@)
}

fn text_value(s: &str) -> (r: SqlValue)
    ensures
        r@ == SqlModel::Text(s@),
{
    SqlValue::Text(String::from_str(s))
}

fn opt_text_value(v: &Json, k: &str) -> (r: SqlValue)
    ensures
        r@ == text_or_null(opt_str(v@.get(k@))),
{
    match v.get(k) {
        Some(x) => match x.as_str() {
            Some(s) => SqlValue::Text(String::from_str(s)),
            None => SqlValue::Null,
        },
        None => SqlValue::Null,
    }
}

fn member_in<'a>(v: Option<&'a Json>, k: &str) -> (r: Option<&'a Json>)
    ensures
        crate::json::opt_model(r) == opt_get(crate::json::opt_model(v), k@),
{
    match v {
        Some(x) => x.get(k),
        None => None,
    }
}

fn opt_int_value(v: Option<&Json>) -> (r: SqlValue)
    ensures
        r@ == int_or_null(opt_i64(crate::json::opt_model(v))),
{
    match v {
        Some(x) => match x.as_i64() {
            Some(n) => SqlValue::Integer(n),
            None => SqlValue::Null,
        },
        None => SqlValue::Null,
    }
}

fn real_value(v: Option<&Json>) -> (r: SqlValue)
    ensures
        r@ == real_or_null(crate::json::opt_model(v)),
{
    match v {
        Some(Json::Number(n)) => SqlValue::Real(
            match n {
                JsonNumber::PosInt(u) => JsonNumber::PosInt(*u),
                JsonNumber::NegInt(i) => JsonNumber::NegInt(*i),
                JsonNumber::Float(f) => JsonNumber::Float(f.clone()),
            },
        ),
        _ => SqlValue::Null,
    }
}

/// The statements written for one hook event: the session's row is ensured
/// first when the payload names a session, then the event's own statements.
pub open spec fn write_plan(event: Seq<char>, d: JsonModel, now: Seq<char>) -> Seq<StatementModel> {
    let sid = str_or_empty(d, "session_id"@);
    let pre = if sid.len() > 0 {
        seq![stmt(sql_insert_session(), seq![SqlModel::Text(sid)])]
    } else {
        Seq::empty()
    };
    pre + event_statements(event, d, now)
}

/// A `PreToolUse` event only inserts, and only where no row with the same
/// key exists yet: every statement of its plan is an `INSERT OR IGNORE`.
/// Writing the same event again therefore adds no row and changes none.
pub proof fn law_pre_tool_use_only_inserts_new_rows(d: JsonModel, now: Seq<char>)
    ensures
        forall|i: int|
            0 <= i < write_plan("PreToolUse"@, d, now).len() ==> has_prefix(
                #[trigger] write_plan("PreToolUse"@, d, now)[i].sql,
                "INSERT OR IGNORE INTO "@,
            ),
{
    reveal_strlit("INSERT OR IGNORE INTO ");
    reveal_strlit("INSERT OR IGNORE INTO sessions (session_id) VALUES (?1)");
    reveal_strlit("INSERT OR IGNORE INTO tools (tool_use_id, session_id, agent_id, tool_name, input_summary, called_at) VALUES (?1, ?2, ?3, ?4, ?5, ?6)");
    reveal_strlit("SessionStart");
    reveal_strlit("SubagentStart");
    reveal_strlit("PreToolUse");
    assert("PreToolUse"@[0] != "SessionStart"@[0]);
    assert("PreToolUse"@[0] != "SubagentStart"@[0]);
    let es = event_statements("PreToolUse"@, d, now);
    assert(es.len() == 1 && es[0].sql == sql_tool_call());
    let p = write_plan("PreToolUse"@, d, now);
    let pre_sql = sql_insert_session();
    let tool_sql = sql_tool_call();
    assert(pre_sql.subrange(0, 22) =~= "INSERT OR IGNORE INTO "@);
    assert(tool_sql.subrange(0, 22) =~= "INSERT OR IGNORE INTO "@);
    assert forall|i: int| 0 <= i < p.len() implies has_prefix(#[trigger] p[i].sql, "INSERT OR IGNORE INTO "@) by {
        assert(p[i].sql == pre_sql || p[i].sql == tool_sql);
    }
}

// ---------------------------------------------------------------------------
// What each event records
// ---------------------------------------------------------------------------

/// The text of a member, or empty text.
pub open spec fn member_text(v: Option<JsonModel>, k: Seq<char>) -> Seq<char> {
    match v {
        Some(o) => match o.get(k) {
            Some(JsonModel::Str(t)) => t,
            _ => Seq::empty(),
        },
        None => Seq::empty(),
    }
}

/// A member as a TEXT parameter: its text, or NULL when it is no text.
pub open spec fn member_text_param(v: Option<JsonModel>, k: Seq<char>) -> SqlModel {
    match v {
        Some(o) => match o.get(k) {
            Some(JsonModel::Str(t)) => SqlModel::Text(t),
            _ => SqlModel::Null,
        },
        None => SqlModel::Null,
    }
}

/// A member as an INTEGER parameter: an integer that fits an `i64`, else
/// NULL.
pub open spec fn member_int_param(v: Option<JsonModel>, k: Seq<char>) -> SqlModel {
    match v {
        Some(o) => match o.get(k) {
            Some(JsonModel::Number(NumberModel::PosInt(n))) => if n <= i64::MAX {
                SqlModel::Integer(n as i64)
            } else {
                SqlModel::Null
            },
            Some(JsonModel::Number(NumberModel::NegInt(n))) => SqlModel::Integer(n),
            _ => SqlModel::Null,
        },
        None => SqlModel::Null,
    }
}

/// A member as a REAL parameter: any number, else NULL.
pub open spec fn member_real_param(v: Option<JsonModel>, k: Seq<char>) -> SqlModel {
    match v {
        Some(o) => match o.get(k) {
            Some(JsonModel::Number(n)) => SqlModel::Real(n),
            _ => SqlModel::Null,
        },
        None => SqlModel::Null,
    }
}

proof fn lemma_event_names_distinct()
    ensures
        "SessionStart"@ != "SubagentStart"@,
        "SessionStart"@ != "PreToolUse"@,
        "SessionStart"@ != "PostToolUse"@,
        "SessionStart"@ != "SubagentStop"@,
        "SessionStart"@ != "Stop"@,
        "SessionStart"@ != "SessionEnd"@,
        "SubagentStart"@ != "PreToolUse"@,
        "SubagentStart"@ != "PostToolUse"@,
        "SubagentStart"@ != "SubagentStop"@,
        "SubagentStart"@ != "Stop"@,
        "SubagentStart"@ != "SessionEnd"@,
        "PreToolUse"@ != "PostToolUse"@,
        "PreToolUse"@ != "SubagentStop"@,
        "PreToolUse"@ != "Stop"@,
        "PreToolUse"@ != "SessionEnd"@,
        "PostToolUse"@ != "SubagentStop"@,
        "PostToolUse"@ != "Stop"@,
        "PostToolUse"@ != "SessionEnd"@,
        "SubagentStop"@ != "Stop"@,
        "SubagentStop"@ != "SessionEnd"@,
        "Stop"@ != "SessionEnd"@,
{
    reveal_strlit("SessionStart");
    reveal_strlit("SubagentStart");
    reveal_strlit("PreToolUse");
    reveal_strlit("PostToolUse");
    reveal_strlit("SubagentStop");
    reveal_strlit("Stop");
    reveal_strlit("SessionEnd");
    assert("SessionStart"@[1] != "SubagentStart"@[1]);
    assert("SessionStart"@[0] != "PreToolUse"@[0]);
    assert("SessionStart"@[0] != "PostToolUse"@[0]);
    assert("SessionStart"@[1] != "SubagentStop"@[1]);
    assert("SessionStart"@[1] != "Stop"@[1]);
    assert("SessionStart"@[7] != "SessionEnd"@[7]);
    assert("SubagentStart"@[0] != "PreToolUse"@[0]);
    assert("SubagentStart"@[0] != "PostToolUse"@[0]);
    assert("SubagentStart"@[10] != "SubagentStop"@[10]);
    assert("SubagentStart"@[1] != "Stop"@[1]);
    assert("SubagentStart"@[1] != "SessionEnd"@[1]);
    assert("PreToolUse"@[1] != "PostToolUse"@[1]);
    assert("PreToolUse"@[0] != "SubagentStop"@[0]);
    assert("PreToolUse"@[0] != "Stop"@[0]);
    assert("PreToolUse"@[0] != "SessionEnd"@[0]);
    assert("PostToolUse"@[0] != "SubagentStop"@[0]);
    assert("PostToolUse"@[0] != "Stop"@[0]);
    assert("PostToolUse"@[0] != "SessionEnd"@[0]);
    assert("SubagentStop"@[1] != "Stop"@[1]);
    assert("SubagentStop"@[1] != "SessionEnd"@[1]);
    assert("Stop"@[1] != "SessionEnd"@[1]);
}

/// Every event first ensures the session's row, when the payload names a
/// session (a non-empty text `session_id`), and nothing else comes first.
pub proof fn law_session_row_first(event: Seq<char>, d: JsonModel, now: Seq<char>)
    ensures
        ({
            let p = write_plan(event, d, now);
            let sid = member_text(Some(d), "session_id"@);
            &&& sid.len() > 0 ==> p.len() >= 1 && (p[0].sql == "INSERT OR IGNORE INTO sessions (session_id) VALUES (?1)"@ && p[0].params =~= seq![SqlModel::Text(sid)])
            &&& sid.len() == 0 ==> p == event_statements(event, d, now)
        }),
{
}

/// A `SessionEnd` records the end of the session: the time, the payload's
/// `reason`, the output tokens of its `usage`, and the cache-hit rate and
/// subagent count of its `stats`, for the session it names.
pub proof fn law_session_end_record(d: JsonModel, now: Seq<char>)
    ensures
        ({
            let p = write_plan("SessionEnd"@, d, now);
            &&& p.len() >= 1
            &&& (p.last().sql == "UPDATE sessions SET ended_at=?1, end_reason=?2, total_out_tokens=?3, cache_hit_rate=?4, subagent_count=?5 WHERE session_id=?6"@ && p.last().params =~= seq![
                    SqlModel::Text(now),
                    member_text_param(Some(d), "reason"@),
                    member_int_param(d.get("usage"@), "output_tokens"@),
                    member_real_param(d.get("stats"@), "cache_hit_rate"@),
                    member_int_param(d.get("stats"@), "subagents"@),
                    SqlModel::Text(member_text(Some(d), "session_id"@)),
                ])
        }),
{
    lemma_event_names_distinct();
}

/// A `Stop` records the turn's cache-hit rate (the payload's
/// `cache_hit_rate`) on the session.
pub proof fn law_stop_record(d: JsonModel, now: Seq<char>)
    ensures
        ({
            let p = write_plan("Stop"@, d, now);
            &&& p.len() >= 1
            &&& (p.last().sql == "UPDATE sessions SET cache_hit_rate=?1 WHERE session_id=?2"@ && p.last().params =~= seq![
                    member_real_param(Some(d), "cache_hit_rate"@),
                    SqlModel::Text(member_text(Some(d), "session_id"@)),
                ])
        }),
{
    lemma_event_names_distinct();
}

/// A `SubagentStop` records the subagent's figures from the payload's
/// `stats`: its run time in whole seconds (rounded toward zero), tool calls,
/// errors, output tokens and cache-hit rate, and the time it stopped.
pub proof fn law_subagent_stop_record(d: JsonModel, now: Seq<char>)
    ensures
        ({
            let p = write_plan("SubagentStop"@, d, now);
            let wall = member_int_param(d.get("stats"@), "wall_time_ms"@);
            &&& p.len() >= 1
            &&& (p.last().sql == "UPDATE agents SET wall_sec=?1, tool_call_count=?2, error_count=?3, output_tokens=?4, cache_hit_rate=?5, stopped_at=?6 WHERE agent_id=?7"@ && p.last().params =~= seq![
                    match wall {
                        SqlModel::Integer(ms) => SqlModel::Integer(
                            if ms >= 0 {
                                (ms / 1000) as i64
                            } else {
                                (-((-ms) / 1000)) as i64
                            },
                        ),
                        _ => SqlModel::Null,
                    },
                    member_int_param(d.get("stats"@), "tool_calls"@),
                    member_int_param(d.get("stats"@), "errors"@),
                    member_int_param(d.get("stats"@), "output_tokens"@),
                    member_real_param(d.get("stats"@), "cache_hit_rate"@),
                    SqlModel::Text(now),
                    SqlModel::Text(member_text(Some(d), "agent_id"@)),
                ])
        }),
{
    lemma_event_names_distinct();
    let stats = d.get("stats"@);
    let e = event_statements("SubagentStop"@, d, now);
    let wall = member_int_param(stats, "wall_time_ms"@);
    let w0 = int_or_null(
        match opt_i64(opt_get(stats, "wall_time_ms"@)) {
            Some(ms) => Some(div_toward_zero_1000(ms)),
            None => None,
        },
    );
    let w1 = match wall {
        SqlModel::Integer(ms) => SqlModel::Integer(
            if ms >= 0 {
                (ms / 1000) as i64
            } else {
                (-((-ms) / 1000)) as i64
            },
        ),
        _ => SqlModel::Null,
    };
    assert(w0 == w1);
    assert(int_or_null(opt_i64(opt_get(stats, "tool_calls"@))) == member_int_param(stats, "tool_calls"@));
    assert(int_or_null(opt_i64(opt_get(stats, "errors"@))) == member_int_param(stats, "errors"@));
    assert(int_or_null(opt_i64(opt_get(stats, "output_tokens"@))) == member_int_param(stats, "output_tokens"@));
    assert(real_or_null(opt_get(stats, "cache_hit_rate"@)) == member_real_param(stats, "cache_hit_rate"@));
    assert(e.len() == 1);
    let p = write_plan("SubagentStop"@, d, now);
    assert(p.last() == e[0]);
    assert(str_or_empty(d, "agent_id"@) == member_text(Some(d), "agent_id"@));
    assert(e[0].params =~= seq![
        w1,
        member_int_param(stats, "tool_calls"@),
        member_int_param(stats, "errors"@),
        member_int_param(stats, "output_tokens"@),
        member_real_param(stats, "cache_hit_rate"@),
        SqlModel::Text(now),
        SqlModel::Text(member_text(Some(d), "agent_id"@)),
    ]);
}

/// A `PostToolUse` records the call's return: the time, the byte length of
/// the response's JSON text (NULL without a response), whether the response
/// says `"is_error": true` (1) or not (0), for the call's `tool_use_id`.
pub proof fn law_post_tool_use_record(d: JsonModel, now: Seq<char>)
    ensures
        ({
            let p = write_plan("PostToolUse"@, d, now);
            &&& p.len() >= 1
            &&& (p.last().sql == "UPDATE tools SET returned_at=?1, result_chars=?2, is_error=?3 WHERE tool_use_id=?4"@ && p.last().params =~= seq![
                    SqlModel::Text(now),
                    match d.get("tool_response"@) {
                        Some(r) => SqlModel::Integer(#[verifier::truncate] (byte_len(spec_json_text(r)) as i64)),
                        None => SqlModel::Null,
                    },
                    SqlModel::Integer(
                        if d.get("tool_response"@) is Some && d.get("tool_response"@)->0.get("is_error"@)
                            == Some(JsonModel::Bool(true)) {
                            1
                        } else {
                            0
                        },
                    ),
                    member_text_param(Some(d), "tool_use_id"@),
                ])
        }),
{
    lemma_event_names_distinct();
    let resp = d.get("tool_response"@);
    assert((opt_bool(opt_get(resp, "is_error"@)) == Some(true)) == (resp is Some && resp->0.get(
        "is_error"@,
    ) == Some(JsonModel::Bool(true))));
    assert(text_or_null(opt_str(d.get("tool_use_id"@))) == member_text_param(Some(d), "tool_use_id"@));
}

/// A `PreToolUse` records the call: its id, the session, the agent (the
/// payload's `agent_id`, else the session's main agent), the tool name, the
/// input's summary and the time.
pub proof fn law_pre_tool_use_record(d: JsonModel, now: Seq<char>)
    ensures
        ({
            let p = write_plan("PreToolUse"@, d, now);
            let sid = member_text(Some(d), "session_id"@);
            let name = member_text(Some(d), "tool_name"@);
            let input = match d.get("tool_input"@) {
                Some(v) => v,
                None => JsonModel::Null,
            };
            &&& p.len() >= 1
            &&& (p.last().sql == "INSERT OR IGNORE INTO tools (tool_use_id, session_id, agent_id, tool_name, input_summary, called_at) VALUES (?1, ?2, ?3, ?4, ?5, ?6)"@ && p.last().params =~= seq![
                    member_text_param(Some(d), "tool_use_id"@),
                    SqlModel::Text(sid),
                    SqlModel::Text(
                        match d.get("agent_id"@) {
                            Some(JsonModel::Str(a)) => a,
                            _ => sid,
                        },
                    ),
                    SqlModel::Text(name),
                    SqlModel::Text(spec_input_summary(name, input)),
                    SqlModel::Text(now),
                ])
        }),
{
    lemma_event_names_distinct();
    let sid = member_text(Some(d), "session_id"@);
    assert(str_or_empty(d, "session_id"@) == sid);
    assert(str_or_empty(d, "tool_name"@) == member_text(Some(d), "tool_name"@));
    assert(match opt_str(d.get("agent_id"@)) {
        Some(a) => a,
        None => sid,
    } == match d.get("agent_id"@) {
        Some(JsonModel::Str(a)) => a,
        _ => sid,
    });
    assert(text_or_null(opt_str(d.get("tool_use_id"@))) == member_text_param(Some(d), "tool_use_id"@));
}

/// A `SessionStart` records the session's slug, model, directory and start
/// time, and its main agent, whose id is the session's.
pub proof fn law_session_start_record(d: JsonModel, now: Seq<char>)
    ensures
        ({
            let p = write_plan("SessionStart"@, d, now);
            let sid = member_text(Some(d), "session_id"@);
            &&& p.len() >= 2
            &&& (p[p.len() - 2].sql == "UPDATE sessions SET slug=?1, model=?2, cwd=?3, started_at=?4 WHERE session_id=?5"@ && p[p.len() - 2].params =~= seq![
                    member_text_param(Some(d), "slug"@),
                    member_text_param(Some(d), "model"@),
                    member_text_param(Some(d), "cwd"@),
                    SqlModel::Text(now),
                    SqlModel::Text(sid),
                ])
            &&& (p.last().sql == "INSERT OR IGNORE INTO agents (agent_id, session_id, parent_agent_id, agent_type, started_at) VALUES (?1, ?2, NULL, ?3, ?4)"@ && p.last().params =~= seq![SqlModel::Text(sid), SqlModel::Text(sid), SqlModel::Text("main"@), SqlModel::Text(now)])
        }),
{
    lemma_event_names_distinct();
}

/// A `SubagentStart` with a subagent id records the subagent under the
/// session, with the session's main agent as parent; without an id it
/// records nothing beyond the session's row.
pub proof fn law_subagent_start_record(d: JsonModel, now: Seq<char>)
    ensures
        ({
            let p = write_plan("SubagentStart"@, d, now);
            let sid = member_text(Some(d), "session_id"@);
            let aid = member_text(Some(d), "agent_id"@);
            &&& aid.len() == 0 ==> p.len() == if sid.len() > 0 { 1int } else { 0int }
            &&& aid.len() > 0 ==> p.len() >= 1 && (p.last().sql == "INSERT OR IGNORE INTO agents (agent_id, session_id, parent_agent_id, agent_type, started_at) VALUES (?1, ?2, ?3, ?4, ?5)"@ && p.last().params =~= seq![
                    SqlModel::Text(aid),
                    SqlModel::Text(sid),
                    SqlModel::Text(sid),
                    member_text_param(Some(d), "agent_type"@),
                    SqlModel::Text(now),
                ])
        }),
{
    lemma_event_names_distinct();
}

/// The statements to write for one hook event: the session's row is ensured
/// first (when the payload names a session), then the event's own rows.
pub fn write_db_inner(event: &str, payload: &Json, now_ts: &str) -> (r: Vec<SqlStatement>)
    ensures
        statements_model(r@) == write_plan(event@, payload@, now_ts@),
{
    let d = payload;
    let sid = str_member_or_empty(d, "session_id");
    let mut out: Vec<SqlStatement> = Vec::new();
    if sid.as_str().unicode_len() > 0 {
        out.push(statement("INSERT OR IGNORE INTO sessions (session_id) VALUES (?1)", vec![text_value(sid.as_str())]));
        proof {
            assert(values_of(out@[0].params@) =~= seq![SqlModel::Text(sid@)]);
            assert(statements_model(out@) =~= seq![stmt(sql_insert_session(), seq![SqlModel::Text(sid@)])]);
        }
    } else {
        proof {
            assert(statements_model(out@) =~= Seq::<StatementModel>::empty());
        }
    }
    let ghost pre = statements_model(out@);
    let mut rest: Vec<SqlStatement> = Vec::new();
    if str_eq(event, "SessionStart") {
        let p1 = vec![
            opt_text_value(d, "slug"),
            opt_text_value(d, "model"),
            opt_text_value(d, "cwd"),
            text_value(now_ts),
            text_value(sid.as_str()),
        ];
        rest.push(statement("UPDATE sessions SET slug=?1, model=?2, cwd=?3, started_at=?4 WHERE session_id=?5", p1));
        proof {
            assert(values_of(rest@.last().params@) =~= event_statements(event@, payload@, now_ts@)[rest@.len() - 1].params);
        }
        let p2 = vec![text_value(sid.as_str()), text_value(sid.as_str()), text_value("main"), text_value(now_ts)];
        rest.push(statement("INSERT OR IGNORE INTO agents (agent_id, session_id, parent_agent_id, agent_type, started_at) VALUES (?1, ?2, NULL, ?3, ?4)", p2));
        proof {
            assert(values_of(rest@.last().params@) =~= event_statements(event@, payload@, now_ts@)[rest@.len() - 1].params);
        }
    } else if str_eq(event, "SubagentStart") {
        let agent_id = str_member_or_empty(d, "agent_id");
        if agent_id.as_str().unicode_len() > 0 {
            let p = vec![
                text_value(agent_id.as_str()),
                text_value(sid.as_str()),
                text_value(sid.as_str()),
                opt_text_value(d, "agent_type"),
                text_value(now_ts),
            ];
            rest.push(statement("INSERT OR IGNORE INTO agents (agent_id, session_id, parent_agent_id, agent_type, started_at) VALUES (?1, ?2, ?3, ?4, ?5)", p));
            proof {
                assert(values_of(rest@.last().params@) =~= event_statements(event@, payload@, now_ts@)[rest@.len() - 1].params);
            }
        }
    } else if str_eq(event, "PreToolUse") {
        let name = str_member_or_empty(d, "tool_name");
        let null = Json::Null;
        let input = match d.get("tool_input") {
            Some(v) => v,
            None => &null,
        };
        let summary = input_summary(name.as_str(), input);
        let agent_id = match d.get("agent_id") {
            Some(v) => match v.as_str() {
                Some(a) => String::from_str(a),
                None => sid.clone(),
            },
            None => sid.clone(),
        };
        let p = vec![
            opt_text_value(d, "tool_use_id"),
            text_value(sid.as_str()),
            text_value(agent_id.as_str()),
            text_value(name.as_str()),
            text_value(summary.as_str()),
            text_value(now_ts),
        ];
        rest.push(statement("INSERT OR IGNORE INTO tools (tool_use_id, session_id, agent_id, tool_name, input_summary, called_at) VALUES (?1, ?2, ?3, ?4, ?5, ?6)", p));
        proof {
            assert(values_of(rest@.last().params@) =~= event_statements(event@, payload@, now_ts@)[rest@.len() - 1].params);
        }
    } else if str_eq(event, "PostToolUse") {
        let resp = d.get("tool_response");
        let is_err: i64 = match member_in(resp, "is_error") {
            Some(b) => if b.as_bool() == Some(true) {
                1
            } else {
                0
            },
            None => 0,
        };
        let rchars = match resp {
            Some(r) => {
                let text = json_to_text(r);
                SqlValue::Integer(#[verifier::truncate] (text.as_str().as_bytes().len() as i64))
            },
            None => SqlValue::Null,
        };
        let p = vec![text_value(now_ts), rchars, SqlValue::Integer(is_err), opt_text_value(d, "tool_use_id")];
        rest.push(statement("UPDATE tools SET returned_at=?1, result_chars=?2, is_error=?3 WHERE tool_use_id=?4", p));
        proof {
            assert(values_of(rest@.last().params@) =~= event_statements(event@, payload@, now_ts@)[rest@.len() - 1].params);
        }
    } else if str_eq(event, "SubagentStop") {
        let stats = d.get("stats");
        let wall_sec = match member_in(stats, "wall_time_ms") {
            Some(v) => match v.as_i64() {
                Some(ms) => SqlValue::Integer(ms / 1000),
                None => SqlValue::Null,
            },
            None => SqlValue::Null,
        };
        let p = vec![
            wall_sec,
            opt_int_value(member_in(stats, "tool_calls")),
            opt_int_value(member_in(stats, "errors")),
            opt_int_value(member_in(stats, "output_tokens")),
            real_value(member_in(stats, "cache_hit_rate")),
            text_value(now_ts),
            SqlValue::Text(str_member_or_empty(d, "agent_id")),
        ];
        rest.push(statement("UPDATE agents SET wall_sec=?1, tool_call_count=?2, error_count=?3, output_tokens=?4, cache_hit_rate=?5, stopped_at=?6 WHERE agent_id=?7", p));
        proof {
            assert(values_of(rest@.last().params@) =~= event_statements(event@, payload@, now_ts@)[rest@.len() - 1].params);
        }
    } else if str_eq(event, "Stop") {
        let p = vec![real_value(d.get("cache_hit_rate")), text_value(sid.as_str())];
        rest.push(statement("UPDATE sessions SET cache_hit_rate=?1 WHERE session_id=?2", p));
        proof {
            assert(values_of(rest@.last().params@) =~= event_statements(event@, payload@, now_ts@)[rest@.len() - 1].params);
        }
    } else if str_eq(event, "SessionEnd") {
        let stats = d.get("stats");
        let p = vec![
            text_value(now_ts),
            opt_text_value(d, "reason"),
            opt_int_value(member_in(d.get("usage"), "output_tokens")),
            real_value(member_in(stats, "cache_hit_rate")),
            opt_int_value(member_in(stats, "subagents")),
            text_value(sid.as_str()),
        ];
        rest.push(statement("UPDATE sessions SET ended_at=?1, end_reason=?2, total_out_tokens=?3, cache_hit_rate=?4, subagent_count=?5 WHERE session_id=?6", p));
        proof {
            assert(values_of(rest@.last().params@) =~= event_statements(event@, payload@, now_ts@)[rest@.len() - 1].params);
        }
    }
    proof {
        assert(statements_model(rest@) =~= event_statements(event@, payload@, now_ts@));
    }
    let ghost rm = statements_model(rest@);
    out.append(&mut rest);
    proof {
        assert(statements_model(out@) =~= pre + rm);
    }
    out
}

// ---------------------------------------------------------------------------
// Opening the database
// ---------------------------------------------------------------------------

/// The tables of the current layout (version 2).
pub open spec fn spec_schema_sql() -> Seq<char> {
    "
CREATE TABLE IF NOT EXISTS sessions (
    session_id       TEXT PRIMARY KEY,
    slug             TEXT,
    model            TEXT,
    cwd              TEXT,
    started_at       TEXT,
    ended_at         TEXT,
    end_reason       TEXT,
    total_out_tokens INTEGER,
    cache_hit_rate   REAL,
    subagent_count   INTEGER DEFAULT 0
);
CREATE TABLE IF NOT EXISTS agents (
    agent_id         TEXT PRIMARY KEY,
    session_id       TEXT REFERENCES sessions(session_id),
    parent_agent_id  TEXT REFERENCES agents(agent_id),
    agent_type       TEXT,
    task_prompt      TEXT,
    wall_sec         INTEGER,
    tool_call_count  INTEGER,
    error_count      INTEGER,
    output_tokens    INTEGER,
    cache_hit_rate   REAL,
    started_at       TEXT,
    stopped_at       TEXT
);
CREATE TABLE IF NOT EXISTS tools (
    id               INTEGER PRIMARY KEY AUTOINCREMENT,
    tool_use_id      TEXT UNIQUE,
    session_id       TEXT REFERENCES sessions(session_id),
    agent_id         TEXT REFERENCES agents(agent_id),
    tool_name        TEXT,
    input_summary    TEXT,
    called_at        TEXT,
    returned_at      TEXT,
    duration_ms      INTEGER,
    result_chars     INTEGER,
    is_error         INTEGER,
    ctx_before       INTEGER,
    ctx_added        INTEGER
);
"@
}

/// The tables of the older layouts, which version 2 replaces.
pub open spec fn spec_drop_legacy_sql() -> Seq<char> {
    "DROP TABLE IF EXISTS turns;
             DROP TABLE IF EXISTS prompts;
             DROP TABLE IF EXISTS subagents;
             DROP TABLE IF EXISTS tool_calls;"@
}

/// One step of preparing an opened database.
pub enum DbStep {
    /// Run a batch of statements.
    Batch(String),
    /// Set the `user_version` pragma.
    SetUserVersion(i32),
}

pub enum DbStepModel {
    Batch(Seq<char>),
    SetUserVersion(i32),
}

impl View for DbStep {
    type V = DbStepModel;

    open spec fn view(&self) -> DbStepModel {
        match self {
            DbStep::Batch(s) => DbStepModel::Batch(s@),
            DbStep::SetUserVersion(v) => DbStepModel::SetUserVersion(*v),
        }
    }
}

/// The steps after the database is opened, by the `user_version` it holds:
/// below 2, the legacy tables are dropped and the current ones created
/// with foreign keys off, and the version set to 2; foreign keys are
/// switched on in every case.
pub open spec fn spec_open_steps(user_version: i32) -> Seq<DbStepModel> {
    if user_version < 2 {
        seq![
            DbStepModel::Batch("PRAGMA foreign_keys=OFF;"@),
            DbStepModel::Batch(spec_drop_legacy_sql()),
            DbStepModel::Batch(spec_schema_sql()),
            DbStepModel::SetUserVersion(2),
            DbStepModel::Batch("PRAGMA foreign_keys=ON;"@),
        ]
    } else {
        seq![DbStepModel::Batch("PRAGMA foreign_keys=ON;"@)]
    }
}

/// The steps that bring an opened database to the current layout.
pub fn open_steps(user_version: i32) -> (r: Vec<DbStep>)
    ensures
        r@.len() == spec_open_steps(user_version).len(),
        forall|i: int| 0 <= i < r@.len() ==> #[trigger] r@[i]@ == spec_open_steps(user_version)[i],
{
    let mut v: Vec<DbStep> = Vec::new();
    if user_version < 2 {
        v.push(DbStep::Batch(String::from_str("PRAGMA foreign_keys=OFF;")));
        v.push(DbStep::Batch(String::from_str("DROP TABLE IF EXISTS turns;
             DROP TABLE IF EXISTS prompts;
             DROP TABLE IF EXISTS subagents;
             DROP TABLE IF EXISTS tool_calls;")));
        v.push(DbStep::Batch(String::from_str("
CREATE TABLE IF NOT EXISTS sessions (
    session_id       TEXT PRIMARY KEY,
    slug             TEXT,
    model            TEXT,
    cwd              TEXT,
    started_at       TEXT,
    ended_at         TEXT,
    end_reason       TEXT,
    total_out_tokens INTEGER,
    cache_hit_rate   REAL,
    subagent_count   INTEGER DEFAULT 0
);
CREATE TABLE IF NOT EXISTS agents (
    agent_id         TEXT PRIMARY KEY,
    session_id       TEXT REFERENCES sessions(session_id),
    parent_agent_id  TEXT REFERENCES agents(agent_id),
    agent_type       TEXT,
    task_prompt      TEXT,
    wall_sec         INTEGER,
    tool_call_count  INTEGER,
    error_count      INTEGER,
    output_tokens    INTEGER,
    cache_hit_rate   REAL,
    started_at       TEXT,
    stopped_at       TEXT
);
CREATE TABLE IF NOT EXISTS tools (
    id               INTEGER PRIMARY KEY AUTOINCREMENT,
    tool_use_id      TEXT UNIQUE,
    session_id       TEXT REFERENCES sessions(session_id),
    agent_id         TEXT REFERENCES agents(agent_id),
    tool_name        TEXT,
    input_summary    TEXT,
    called_at        TEXT,
    returned_at      TEXT,
    duration_ms      INTEGER,
    result_chars     INTEGER,
    is_error         INTEGER,
    ctx_before       INTEGER,
    ctx_added        INTEGER
);
")));
        v.push(DbStep::SetUserVersion(2));
    }
    v.push(DbStep::Batch(String::from_str("PRAGMA foreign_keys=ON;")));
    v
}

} // verus!

# xclaude

xclaude runs an agentic coding CLI with hooks injected, turns what happens
in its session into JSON-RPC events on a Unix socket, and keeps a log and a
SQLite record of sessions, agents and tool calls.

## Layout

- `src/` — the library, verified with Verus. Every decision is here, with
  its contract: the hook receiver as a state machine (`hooks`), the events
  (`events`, `session`), transcript statistics and tool pairing
  (`transcript`, `tool_calls`, `enrich`), the database statements and status
  report (`db`, `status`), schema checks (`schemas`), log lines and RPC
  requests (`logger`, `rpc`), and the launcher's plan (`wrapper`,
  `commands`). JSON is modelled by `json`; text is read and written through
  serde_json behind the trusted items of `json_text`, and timestamps through
  chrono (`tool_calls`, `session`).
- `tests/` — tests of the library on concrete values.
- `app/` — the program: sockets, files, the child process, the clock and
  SQLite, each handing plain values to the library and acting on its
  answers.

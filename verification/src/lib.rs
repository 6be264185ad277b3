//! Verified core of xclaude: event construction, hook handling, transcript
//! analysis and the other decisions of the wrapper around an agentic coding CLI.

pub mod json;
pub mod text;
pub mod json_text;
pub mod events;
pub mod assoc;
pub mod hooks;
pub mod transcript;
pub mod tool_calls;
pub mod enrich;
pub mod session;
pub mod textops;
pub mod db;
pub mod sorting;
pub mod schemas;
pub mod status;
pub mod wrapper;
pub mod socket;
pub mod commands;
pub mod logger;
pub mod rpc;

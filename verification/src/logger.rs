//! The daily JSON-lines log of hook events: where it lives and what one
//! line holds. Reading the clock and appending to the file are the
//! caller's work.

use vstd::prelude::*;
use crate::json::{Json, JsonModel, entries_model, lemma_object_model};
use crate::json_text::{json_to_text, spec_json_text};
use crate::text::{join_path, path_join};

verus! {

/// The log directory under a home directory: `<home>/.xclaude/logs`.
pub open spec fn spec_log_dir(home: Seq<char>) -> Seq<char> {
    path_join(path_join(home, ".xclaude"@), "logs"@)
}

/// The log file of a day: `<log dir>/<date>.jsonl`.
pub open spec fn spec_log_file(home: Seq<char>, date: Seq<char>) -> Seq<char> {
    path_join(spec_log_dir(home), date + ".jsonl"@)
}

/// The value one log line holds: the time, the event and its payload.
pub open spec fn log_entry(ts: Seq<char>, event: Seq<char>, data: JsonModel) -> JsonModel {
    JsonModel::Object(
        seq![("ts"@, JsonModel::Str(ts)), ("event"@, JsonModel::Str(event)), ("data"@, data)],
    )
}

/// The log directory.
pub fn log_dir(home: &str) -> (r: String)
    ensures
        r@ == spec_log_dir(home@),
{
    let d = join_path(home, ".xclaude");
    join_path(d.as_str(), "logs")
}

/// The log file for a date written `YYYY-MM-DD`.
pub fn log_file(home: &str, date: &str) -> (r: String)
    ensures
        r@ == spec_log_file(home@, date@),
{
    let d = log_dir(home);
    let mut name = String::from_str(date);
    name.append(".jsonl");
    join_path(d.as_str(), name.as_str())
}

/// The text of one log line (without its newline).
pub fn log_line(ts: &str, event: &str, data: Json) -> (r: String)
    ensures
        r@ == spec_json_text(log_entry(ts@, event@, data@)),
{
    let ghost dm = data@;
    let mut entries: Vec<(String, Json)> = Vec::new();
    entries.push((String::from_str("ts"), Json::Str(String::from_str(ts))));
    entries.push((String::from_str("event"), Json::Str(String::from_str(event))));
    entries.push((String::from_str("data"), data));
    let v = Json::Object(entries);
    proof {
        lemma_object_model(entries);
        assert(entries_model(entries@) =~= seq![
            ("ts"@, JsonModel::Str(ts@)),
            ("event"@, JsonModel::Str(event@)),
            ("data"@, dm),
        ]);
        assert(v@ == log_entry(ts@, event@, dm));
    }
    json_to_text(&v)
}

} // verus!

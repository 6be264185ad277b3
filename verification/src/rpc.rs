//! Forwarding hook events to a JSON-RPC listener: which endpoint, which
//! transport, and the notification text. Reading the environment and the config
//! file, and writing to the socket, are the caller's work.

use vstd::prelude::*;
use crate::json::{Json, JsonModel, entries_model, lemma_object_model, opt_str};
use crate::json_text::{json_to_text, parse_json, spec_json_text, spec_parse_json};
use crate::text::{has_prefix, strip_prefix};

verus! {

/// The endpoint a config file's text names under `rpc_endpoint`, if the
/// text is JSON and the member is text.
pub open spec fn spec_config_endpoint(content: Seq<char>) -> Option<Seq<char>> {
    match spec_parse_json(content) {
        Some(v) => opt_str(v.get("rpc_endpoint"@)),
        None => None,
    }
}

/// The endpoint named in the config file's text.
pub fn endpoint_from_config(content: &str) -> (r: Option<String>)
    ensures
        match r {
            Some(s) => spec_config_endpoint(content@) == Some(s@),
            None => spec_config_endpoint(content@) is None,
        },
{
    let v = match parse_json(content) {
        Some(v) => v,
        None => return None,
    };
    match v.get("rpc_endpoint") {
        Some(u) => match u.as_str() {
            Some(s) => Some(String::from_str(s)),
            None => None,
        },
        None => None,
    }
}

/// The text with every leading copy of `p` removed (`trim_start_matches`).
pub open spec fn trim_prefixes(s: Seq<char>, p: Seq<char>) -> Seq<char>
    decreases s.len(),
{
    if p.len() > 0 && has_prefix(s, p) {
        trim_prefixes(s.subrange(p.len() as int, s.len() as int), p)
    } else {
        s
    }
}

/// Where a notification goes.
pub enum RpcTarget {
    /// A Unix socket at this path.
    Unix(String),
    /// A TCP address (`host:port`).
    Tcp(String),
    /// Nowhere: the endpoint names no transport.
    Unsupported,
}

pub enum RpcTargetModel {
    Unix(Seq<char>),
    Tcp(Seq<char>),
    Unsupported,
}

impl View for RpcTarget {
    type V = RpcTargetModel;

    open spec fn view(&self) -> RpcTargetModel {
        match self {
            RpcTarget::Unix(s) => RpcTargetModel::Unix(s@),
            RpcTarget::Tcp(s) => RpcTargetModel::Tcp(s@),
            RpcTarget::Unsupported => RpcTargetModel::Unsupported,
        }
    }
}

/// `unix://<path>` is a Unix socket; `tcp://<addr>`, or any endpoint with a
/// `:`, is a TCP address; anything else is unsupported.
pub open spec fn spec_rpc_target(endpoint: Seq<char>) -> RpcTargetModel {
    if has_prefix(endpoint, "unix://"@) {
        RpcTargetModel::Unix(trim_prefixes(endpoint, "unix://"@))
    } else if has_prefix(endpoint, "tcp://"@) || endpoint.contains(':') {
        RpcTargetModel::Tcp(trim_prefixes(endpoint, "tcp://"@))
    } else {
        RpcTargetModel::Unsupported
    }
}

/// The text with every leading copy of `p` removed.
pub fn trim_start_matches(s: &str, p: &str) -> (r: String)
    ensures
        r@ == trim_prefixes(s@, p@),
{
    let mut cur = String::from_str(s);
    if p.unicode_len() == 0 {
        return cur;
    }
    loop
        invariant
            p@.len() > 0,
            trim_prefixes(cur@, p@) == trim_prefixes(s@, p@),
        decreases cur@.len(),
    {
        let next = match strip_prefix(cur.as_str(), p) {
            Some(rest) => String::from_str(rest),
            None => {
                return cur;
            },
        };
        cur = next;
    }
}

/// Does the text hold the character?
fn contains_char(s: &str, c: char) -> (r: bool)
    ensures
        r == s@.contains(c),
{
    let n = s.unicode_len();
    let mut i: usize = 0;
    while i < n
        invariant
            n == s@.len(),
            i <= n,
            forall|j: int| 0 <= j < i ==> s@[j] != c,
        decreases n - i,
    {
        if s.get_char(i) == c {
            assert(s@[i as int] == c);
            return true;
        }
        i = i + 1;
    }
    false
}

/// The transport and address an endpoint names.
pub fn rpc_target(endpoint: &str) -> (r: RpcTarget)
    ensures
        r@ == spec_rpc_target(endpoint@),
{
    if crate::text::starts_with(endpoint, "unix://") {
        RpcTarget::Unix(trim_start_matches(endpoint, "unix://"))
    } else if crate::text::starts_with(endpoint, "tcp://") || contains_char(endpoint, ':') {
        RpcTarget::Tcp(trim_start_matches(endpoint, "tcp://"))
    } else {
        RpcTarget::Unsupported
    }
}

/// The JSON-RPC 2.0 notification for an event: the event as the method, the
/// time and the payload as parameters, and no `id`.
pub open spec fn rpc_notification(event: Seq<char>, ts: Seq<char>, data: JsonModel) -> JsonModel {
    JsonModel::Object(
        seq![
            ("jsonrpc"@, JsonModel::Str("2.0"@)),
            ("method"@, JsonModel::Str(event)),
            ("params"@, JsonModel::Object(seq![("ts"@, JsonModel::Str(ts)), ("data"@, data)])),
        ],
    )
}

/// The text sent for an event: the notification's JSON and a newline.
pub fn rpc_payload(event: &str, ts: &str, data: Json) -> (r: String)
    ensures
        r@ == spec_json_text(rpc_notification(event@, ts@, data@)) + "\n"@,
{
    let ghost dm = data@;
    let mut params: Vec<(String, Json)> = Vec::new();
    params.push((String::from_str("ts"), Json::Str(String::from_str(ts))));
    params.push((String::from_str("data"), data));
    let p = Json::Object(params);
    let ghost pm = JsonModel::Object(seq![("ts"@, JsonModel::Str(ts@)), ("data"@, dm)]);
    proof {
        lemma_object_model(params);
        assert(entries_model(params@) =~= seq![("ts"@, JsonModel::Str(ts@)), ("data"@, dm)]);
    }
    let mut entries: Vec<(String, Json)> = Vec::new();
    entries.push((String::from_str("jsonrpc"), Json::Str(String::from_str("2.0"))));
    entries.push((String::from_str("method"), Json::Str(String::from_str(event))));
    entries.push((String::from_str("params"), p));
    let v = Json::Object(entries);
    proof {
        lemma_object_model(entries);
        assert(entries_model(entries@) =~= seq![
            ("jsonrpc"@, JsonModel::Str("2.0"@)),
            ("method"@, JsonModel::Str(event@)),
            ("params"@, pm),
        ]);
        assert(v@ == rpc_notification(event@, ts@, dm));
    }
    let mut t = json_to_text(&v);
    t.append("\n");
    t
}

} // verus!

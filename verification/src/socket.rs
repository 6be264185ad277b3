//! Where xclaude publishes its events: one Unix socket that UI clients
//! connect to. Binding it and writing to clients is the caller's work.

use vstd::prelude::*;

verus! {

/// The path of the event socket.
pub open spec fn spec_socket_path() -> Seq<char> {
    "/tmp/xclaude.sock"@
}

/// The path of the event socket, `/tmp/xclaude.sock`.
pub fn path() -> (r: String)
    ensures
        r@ == spec_socket_path(),
{
    String::from_str("/tmp/xclaude.sock")
}

} // verus!

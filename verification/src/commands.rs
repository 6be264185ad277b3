//! The user-facing subcommands' own decisions: where the desktop UI's
//! binary may lie in a development tree.

use vstd::prelude::*;
use crate::sorting::texts_of;
use crate::text::{join_path, path_join};

verus! {

/// The UI binary built for one profile under the app directory.
pub open spec fn gui_binary(app_dir: Seq<char>, profile: Seq<char>) -> Seq<char> {
    path_join(
        path_join(path_join(path_join(app_dir, ".build"@), "arm64-apple-macosx"@), profile),
        "XClaudeApp"@,
    )
}

/// The places the UI binary is looked for, the release build first.
pub open spec fn spec_gui_candidates(app_dir: Seq<char>) -> Seq<Seq<char>> {
    seq![gui_binary(app_dir, "release"@), gui_binary(app_dir, "debug"@)]
}

fn gui_binary_for(app_dir: &str, profile: &str) -> (r: String)
    ensures
        r@ == gui_binary(app_dir@, profile@),
{
    let a = join_path(app_dir, ".build");
    let b = join_path(a.as_str(), "arm64-apple-macosx");
    let c = join_path(b.as_str(), profile);
    join_path(c.as_str(), "XClaudeApp")
}

/// The paths at which the UI binary is looked for, in order; the first
/// that is a file is launched.
pub fn gui_binary_candidates(app_dir: &str) -> (r: Vec<String>)
    ensures
        texts_of(r@) == spec_gui_candidates(app_dir@),
{
    let mut v: Vec<String> = Vec::new();
    v.push(gui_binary_for(app_dir, "release"));
    v.push(gui_binary_for(app_dir, "debug"));
    assert(texts_of(v@) =~= spec_gui_candidates(app_dir@));
    v
}

} // verus!

//! Launching the wrapped program under xclaude: where to look for its binary,
//! which candidate to take, and the arguments to hand it. Probing the file
//! system and replacing the process are the caller's work.

use vstd::prelude::*;
use crate::json::str_eq;
use crate::sorting::{lex_lt, lemma_lex_transitive, lemma_lex_trichotomy, texts_of};
use crate::text::{join_path, path_join};

verus! {

/// The flag that blocks subagents; it is not forwarded to the wrapped program.
pub open spec fn no_subagents_flag() -> Seq<char> {
    "--no-subagents"@
}

/// The subcommands that go to the wrapped program untouched, without
/// injected hooks.
pub open spec fn is_passthrough(s: Seq<char>) -> bool {
    s == "mcp"@ || s == "config"@ || s == "api-key"@ || s == "rc"@ || s == "remote-control"@
}

/// The arguments without the no-subagents flag, in order.
pub open spec fn forwarded(args: Seq<Seq<char>>) -> Seq<Seq<char>>
    decreases args.len(),
{
    if args.len() == 0 {
        Seq::empty()
    } else if args.last() == no_subagents_flag() {
        forwarded(args.drop_last())
    } else {
        forwarded(args.drop_last()).push(args.last())
    }
}

/// How the wrapped program is started.
pub enum Launch {
    /// A pass-through subcommand: these arguments, nothing injected.
    Passthrough(Vec<String>),
    /// A session: these arguments, the hook settings first.
    Session(Vec<String>),
}

/// The model of a launch.
pub enum LaunchModel {
    Passthrough(Seq<Seq<char>>),
    Session(Seq<Seq<char>>),
}

impl View for Launch {
    type V = LaunchModel;

    open spec fn view(&self) -> LaunchModel {
        match self {
            Launch::Passthrough(a) => LaunchModel::Passthrough(texts_of(a@)),
            Launch::Session(a) => LaunchModel::Session(texts_of(a@)),
        }
    }
}

/// The launch for the wrapper's arguments and the hook settings text: a
/// pass-through subcommand as given; otherwise `--settings <settings>`,
/// then `--disallowedTools Agent` when subagents are blocked, then the
/// forwarded arguments.
pub open spec fn spec_launch(args: Seq<Seq<char>>, settings: Seq<char>) -> LaunchModel {
    let fw = forwarded(args);
    if fw.len() > 0 && is_passthrough(fw[0]) {
        LaunchModel::Passthrough(fw)
    } else {
        LaunchModel::Session(
            seq!["--settings"@, settings] + (if args.contains(no_subagents_flag()) {
                seq!["--disallowedTools"@, "Agent"@]
            } else {
                Seq::empty()
            }) + fw,
        )
    }
}

/// Is `--no-subagents` among the arguments?
pub fn blocks_subagents(args: &Vec<String>) -> (r: bool)
    ensures
        r == texts_of(args@).contains(no_subagents_flag()),
{
    let ghost t = texts_of(args@);
    let mut i: usize = 0;
    while i < args.len()
        invariant
            i <= args.len(),
            t == texts_of(args@),
            forall|j: int| 0 <= j < i ==> t[j] != no_subagents_flag(),
        decreases args.len() - i,
    {
        if str_eq(args[i].as_str(), "--no-subagents") {
            assert(t[i as int] == no_subagents_flag());
            return true;
        }
        i = i + 1;
    }
    false
}

/// Is the subcommand one that goes to the wrapped program untouched?
pub fn passthrough_subcommand(s: &str) -> (r: bool)
    ensures
        r == is_passthrough(s@),
{
    str_eq(s, "mcp") || str_eq(s, "config") || str_eq(s, "api-key") || str_eq(s, "rc") || str_eq(
        s,
        "remote-control",
    )
}

/// The arguments for the wrapped program, from the wrapper's own arguments and the
/// hook settings text.
pub fn plan_launch(args: Vec<String>, settings: String) -> (r: Launch)
    ensures
        r@ == spec_launch(texts_of(args@), settings@),
{
    let block = blocks_subagents(&args);
    let ghost t = texts_of(args@);
    let mut fw: Vec<String> = Vec::new();
    let mut i: usize = 0;
    proof {
        assert(t.take(0) =~= Seq::<Seq<char>>::empty());
        assert(texts_of(fw@) =~= Seq::<Seq<char>>::empty());
    }
    while i < args.len()
        invariant
            i <= args.len(),
            t == texts_of(args@),
            texts_of(fw@) == forwarded(t.take(i as int)),
        decreases args.len() - i,
    {
        proof {
            assert(t.take(i + 1).drop_last() =~= t.take(i as int));
            assert(t.take(i + 1).last() == args@[i as int]@);
        }
        if !str_eq(args[i].as_str(), "--no-subagents") {
            let ghost before = texts_of(fw@);
            fw.push(args[i].clone());
            assert(texts_of(fw@) =~= before.push(args@[i as int]@));
        }
        i = i + 1;
    }
    proof {
        assert(t.take(args.len() as int) =~= t);
    }
    if fw.len() > 0 && passthrough_subcommand(fw[0].as_str()) {
        return Launch::Passthrough(fw);
    }
    let mut out: Vec<String> = Vec::new();
    out.push(String::from_str("--settings"));
    out.push(settings);
    if block {
        out.push(String::from_str("--disallowedTools"));
        out.push(String::from_str("Agent"));
    }
    let ghost head = texts_of(out@);
    proof {
        if block {
            assert(head =~= seq!["--settings"@, settings@] + seq!["--disallowedTools"@, "Agent"@]);
        } else {
            assert(head =~= seq!["--settings"@, settings@] + Seq::<Seq<char>>::empty());
        }
    }
    let mut k: usize = 0;
    let ghost fwt = texts_of(fw@);
    while k < fw.len()
        invariant
            k <= fw.len(),
            fwt == texts_of(fw@),
            texts_of(out@) == head + fwt.take(k as int),
        decreases fw.len() - k,
    {
        let ghost before = texts_of(out@);
        out.push(fw[k].clone());
        proof {
            assert(texts_of(out@) =~= before.push(fwt[k as int]));
            assert(fwt.take(k + 1) =~= fwt.take(k as int).push(fwt[k as int]));
        }
        k = k + 1;
    }
    proof {
        assert(fwt.take(fw.len() as int) =~= fwt);
    }
    Launch::Session(out)
}

/// Is the argument anything but the no-subagents flag?
pub open spec fn not_flag(x: Seq<char>) -> bool {
    x != no_subagents_flag()
}

proof fn lemma_forwarded_is_filter(args: Seq<Seq<char>>)
    ensures
        forwarded(args) == args.filter(|x: Seq<char>| not_flag(x)),
    decreases args.len(),
{
    reveal(Seq::filter);
    if args.len() > 0 {
        lemma_forwarded_is_filter(args.drop_last());
    }
}

/// A launch hands the wrapped program every argument of the user but the
/// no-subagents flag, in the user's order: as the whole list for a
/// pass-through subcommand, and after `--settings <settings>` and the
/// optional `--disallowedTools Agent` for a session. The flag itself is
/// never among the forwarded arguments.
pub proof fn law_launch_forwards_user_args(args: Seq<Seq<char>>, settings: Seq<char>)
    ensures
        ({
            let kept = args.filter(|x: Seq<char>| not_flag(x));
            &&& !kept.contains(no_subagents_flag())
            &&& match spec_launch(args, settings) {
                LaunchModel::Passthrough(a) => a == kept,
                LaunchModel::Session(a) => {
                    &&& a.len() >= 2 + kept.len()
                    &&& a[0] == "--settings"@
                    &&& a[1] == settings
                    &&& a.subrange(a.len() - kept.len(), a.len() as int) == kept
                    &&& (args.contains(no_subagents_flag()) <==> a.len() == 4 + kept.len())
                },
            }
        }),
{
    lemma_forwarded_is_filter(args);
    let kept = args.filter(|x: Seq<char>| not_flag(x));
    broadcast use vstd::seq_lib::group_filter_ensures;
    if kept.contains(no_subagents_flag()) {
        let i = choose|i: int| 0 <= i < kept.len() && kept[i] == no_subagents_flag();
        assert(not_flag(kept[i]));
    }
    match spec_launch(args, settings) {
        LaunchModel::Session(a) => {
            let head = seq!["--settings"@, settings] + (if args.contains(no_subagents_flag()) {
                seq!["--disallowedTools"@, "Agent"@]
            } else {
                Seq::empty()
            });
            assert(a == head + kept);
            assert(a.subrange(a.len() - kept.len(), a.len() as int) =~= kept);
        },
        _ => {},
    }
}

// ---------------------------------------------------------------------------
// Finding the real binary
// ---------------------------------------------------------------------------

/// The directories searched after `PATH`, under a home directory, for the
/// program named `program`.
pub open spec fn spec_fallback_dirs(home: Seq<char>, program: Seq<char>) -> Seq<Seq<char>> {
    seq![
        home + "/.local/share/"@ + program,
        home + "/.local/share/"@ + program + "/bin"@,
        home + "/.npm-global/bin"@,
        home + "/.nvm/versions/node/current/bin"@,
        "/usr/local/bin"@,
        "/opt/homebrew/bin"@,
    ]
}

/// The candidate files, in the order they are tried: the program in each
/// `PATH` directory, then in each fallback directory.
pub open spec fn spec_candidates(path_dirs: Seq<Seq<char>>, home: Seq<char>, program: Seq<char>) -> Seq<
    Seq<char>,
> {
    let dirs = path_dirs + spec_fallback_dirs(home, program);
    Seq::new(dirs.len(), |i: int| path_join(dirs[i], program))
}

/// The directory of installed versions under a home directory.
pub open spec fn spec_versions_dir(home: Seq<char>, program: Seq<char>) -> Seq<char> {
    path_join(home, ".local/share/"@ + program + "/versions"@)
}

fn concat(a: &str, b: &str) -> (r: String)
    ensures
        r@ == a@ + b@,
{
    let mut r = String::from_str(a);
    r.append(b);
    r
}

/// The directories searched after `PATH`.
pub fn fallback_dirs(home: &str, program: &str) -> (r: Vec<String>)
    ensures
        texts_of(r@) == spec_fallback_dirs(home@, program@),
{
    let mut v: Vec<String> = Vec::new();
    let share = concat(home, "/.local/share/");
    let dir = concat(share.as_str(), program);
    v.push(dir.clone());
    v.push(concat(dir.as_str(), "/bin"));
    v.push(concat(home, "/.npm-global/bin"));
    v.push(concat(home, "/.nvm/versions/node/current/bin"));
    v.push(String::from_str("/usr/local/bin"));
    v.push(String::from_str("/opt/homebrew/bin"));
    assert(texts_of(v@) =~= spec_fallback_dirs(home@, program@));
    v
}

/// The candidate files for the real program, in the order they are tried.
pub fn program_candidates(path_dirs: &Vec<String>, home: &str, program: &str) -> (r: Vec<String>)
    ensures
        texts_of(r@) == spec_candidates(texts_of(path_dirs@), home@, program@),
{
    let fb = fallback_dirs(home, program);
    let ghost dirs = texts_of(path_dirs@) + texts_of(fb@);
    let mut out: Vec<String> = Vec::new();
    let mut i: usize = 0;
    while i < path_dirs.len()
        invariant
            i <= path_dirs.len(),
            dirs == texts_of(path_dirs@) + texts_of(fb@),
            out.len() == i,
            forall|j: int| 0 <= j < i ==> #[trigger] out@[j]@ == path_join(dirs[j], program@),
        decreases path_dirs.len() - i,
    {
        out.push(join_path(path_dirs[i].as_str(), program));
        i = i + 1;
    }
    let mut k: usize = 0;
    while k < fb.len()
        invariant
            k <= fb.len(),
            dirs == texts_of(path_dirs@) + texts_of(fb@),
            out.len() == path_dirs.len() + k,
            forall|j: int| 0 <= j < out.len() ==> #[trigger] out@[j]@ == path_join(dirs[j], program@),
        decreases fb.len() - k,
    {
        out.push(join_path(fb[k].as_str(), program));
        k = k + 1;
    }
    assert(texts_of(out@) =~= spec_candidates(texts_of(path_dirs@), home@, program@));
    out
}

/// The directory of installed versions.
pub fn versions_dir(home: &str, program: &str) -> (r: String)
    ensures
        r@ == spec_versions_dir(home@, program@),
{
    let mut rel = String::from_str(".local/share/");
    rel.append(program);
    rel.append("/versions");
    join_path(home, rel.as_str())
}

/// What the file system says of a candidate: is it a file, and is it this
/// program itself (the same canonical path)?
pub struct Probe {
    pub is_file: bool,
    pub is_self: bool,
}

/// The first candidate that is a file and not this program.
pub fn first_usable(probes: &Vec<Probe>) -> (r: Option<usize>)
    ensures
        match r {
            Some(i) => i < probes.len() && probes@[i as int].is_file && !probes@[i as int].is_self
                && forall|j: int| 0 <= j < i ==> !(#[trigger] probes@[j].is_file) || probes@[j].is_self,
            None => forall|j: int|
                0 <= j < probes.len() ==> !(#[trigger] probes@[j].is_file) || probes@[j].is_self,
        },
{
    let mut i: usize = 0;
    while i < probes.len()
        invariant
            i <= probes.len(),
            forall|j: int| 0 <= j < i ==> !(#[trigger] probes@[j].is_file) || probes@[j].is_self,
        decreases probes.len() - i,
    {
        if probes[i].is_file && !probes[i].is_self {
            return Some(i);
        }
        i = i + 1;
    }
    None
}

/// Among the installed version files, the last in path order, unless that
/// one is this program. Each entry is a path and whether it is this program.
pub fn latest_version(versions: &Vec<(String, bool)>) -> (r: Option<usize>)
    ensures
        match r {
            Some(i) => i < versions.len() && !versions@[i as int].1 && forall|j: int|
                0 <= j < versions.len() ==> !lex_lt(versions@[i as int].0@, #[trigger] versions@[j].0@),
            None => versions.len() == 0 || exists|i: int|
                0 <= i < versions.len() && versions@[i].1 && forall|j: int|
                    0 <= j < versions.len() ==> !lex_lt(versions@[i].0@, #[trigger] versions@[j].0@),
        },
{
    if versions.len() == 0 {
        return None;
    }
    let mut best: usize = 0;
    let mut i: usize = 1;
    proof {
        lemma_lex_trichotomy(versions@[0].0@, versions@[0].0@);
    }
    while i < versions.len()
        invariant
            1 <= i <= versions.len(),
            best < i,
            forall|j: int| 0 <= j < i ==> !lex_lt(versions@[best as int].0@, #[trigger] versions@[j].0@),
        decreases versions.len() - i,
    {
        if !crate::sorting::text_lt(versions[i].0.as_str(), versions[best].0.as_str()) {
            proof {
                let nb = versions@[i as int].0@;
                let ob = versions@[best as int].0@;
                lemma_lex_trichotomy(nb, ob);
                assert forall|j: int| 0 <= j < i + 1 implies !lex_lt(nb, #[trigger] versions@[j].0@) by {
                    let x = versions@[j].0@;
                    if j < i && lex_lt(nb, x) {
                        lemma_lex_trichotomy(ob, nb);
                        if lex_lt(ob, nb) {
                            lemma_lex_transitive(ob, nb, x);
                        }
                    }
                    if j == i {
                        lemma_lex_trichotomy(nb, nb);
                    }
                }
            }
            best = i;
        } else {
            proof {
                lemma_lex_trichotomy(versions@[i as int].0@, versions@[best as int].0@);
            }
        }
        i = i + 1;
    }
    if versions[best].1 {
        None
    } else {
        Some(best)
    }
}

} // verus!

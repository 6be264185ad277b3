use xclaude::commands::gui_binary_candidates;
use xclaude::sorting::{sort_dedup, text_lt};
use xclaude::text::{i64_to_decimal, join_path, starts_with, strip_prefix, u64_to_decimal};
use xclaude::textops::{trim_text, truncate_bytes};
use xclaude::wrapper::{
    blocks_subagents, program_candidates, fallback_dirs, first_usable, latest_version,
    passthrough_subcommand, plan_launch, versions_dir, Launch, Probe,
};

fn args(v: &[&str]) -> Vec<String> {
    v.iter().map(|s| s.to_string()).collect()
}

#[test]
fn session_launch_injects_settings_first() {
    match plan_launch(args(&["-p", "hi"]), "S".to_string()) {
        Launch::Session(a) => assert_eq!(a, args(&["--settings", "S", "-p", "hi"])),
        _ => panic!("expected a session launch"),
    }
    match plan_launch(args(&[]), "S".to_string()) {
        Launch::Session(a) => assert_eq!(a, args(&["--settings", "S"])),
        _ => panic!("expected a session launch"),
    }
}

#[test]
fn no_subagents_flag_blocks_agent_tool() {
    let a = args(&["-p", "--no-subagents", "hi", "--no-subagents"]);
    assert!(blocks_subagents(&a));
    match plan_launch(a, "S".to_string()) {
        Launch::Session(a) => assert_eq!(
            a,
            args(&["--settings", "S", "--disallowedTools", "Agent", "-p", "hi"])
        ),
        _ => panic!("expected a session launch"),
    }
    assert!(!blocks_subagents(&args(&["--no-subagent"])));
}

#[test]
fn passthrough_subcommands_skip_hooks() {
    for sub in ["mcp", "config", "api-key", "rc", "remote-control"] {
        assert!(passthrough_subcommand(sub));
        match plan_launch(args(&["--no-subagents", sub, "list"]), "S".to_string()) {
            Launch::Passthrough(a) => assert_eq!(a, args(&[sub, "list"])),
            _ => panic!("expected a pass-through launch"),
        }
    }
    assert!(!passthrough_subcommand("chat"));
    match plan_launch(args(&["chat", "mcp"]), "S".to_string()) {
        Launch::Session(a) => assert_eq!(a, args(&["--settings", "S", "chat", "mcp"])),
        _ => panic!("expected a session launch"),
    }
}

#[test]
fn program_is_searched_on_path_then_fallbacks() {
    assert_eq!(
        fallback_dirs("/home/u", "agent"),
        args(&[
            "/home/u/.local/share/agent",
            "/home/u/.local/share/agent/bin",
            "/home/u/.npm-global/bin",
            "/home/u/.nvm/versions/node/current/bin",
            "/usr/local/bin",
            "/opt/homebrew/bin",
        ])
    );
    let c = program_candidates(&args(&["/usr/bin", "/bin/", ""]), "/home/u", "agent");
    assert_eq!(c.len(), 9);
    assert_eq!(c[0], "/usr/bin/agent");
    assert_eq!(c[1], "/bin/agent");
    assert_eq!(c[2], "agent");
    assert_eq!(c[3], "/home/u/.local/share/agent/agent");
    assert_eq!(c[8], "/opt/homebrew/bin/agent");
    assert_eq!(versions_dir("/home/u", "agent"), "/home/u/.local/share/agent/versions");
}

#[test]
fn first_usable_skips_missing_and_self() {
    let probes = vec![
        Probe { is_file: false, is_self: false },
        Probe { is_file: true, is_self: true },
        Probe { is_file: true, is_self: false },
        Probe { is_file: true, is_self: false },
    ];
    assert_eq!(first_usable(&probes), Some(2));
    let head = vec![
        Probe { is_file: false, is_self: false },
        Probe { is_file: true, is_self: true },
    ];
    assert_eq!(first_usable(&head), None);
    assert_eq!(first_usable(&vec![]), None);
}

#[test]
fn latest_version_is_last_in_order() {
    let v = vec![
        ("/v/1.0.9".to_string(), false),
        ("/v/1.0.10".to_string(), false),
        ("/v/1.0.2".to_string(), false),
    ];
    assert_eq!(latest_version(&v), Some(0));
    let w = vec![("/v/a".to_string(), false), ("/v/b".to_string(), true)];
    assert_eq!(latest_version(&w), None);
    assert_eq!(latest_version(&vec![]), None);
}

#[test]
fn gui_binary_release_then_debug() {
    assert_eq!(
        gui_binary_candidates("/repo/xclaude-app"),
        args(&[
            "/repo/xclaude-app/.build/arm64-apple-macosx/release/XClaudeApp",
            "/repo/xclaude-app/.build/arm64-apple-macosx/debug/XClaudeApp",
        ])
    );
}

#[test]
fn sorting_texts_drops_repeats() {
    assert_eq!(sort_dedup(args(&["b", "a", "b", "", "ab"])), args(&["", "a", "ab", "b"]));
    assert!(text_lt("a", "b"));
    assert!(text_lt("a", "ab"));
    assert!(!text_lt("b", "ab"));
    assert!(!text_lt("x", "x"));
    assert!(text_lt("Z", "a"));
    assert!(text_lt("z", "é"));
}

#[test]
fn decimal_rendering() {
    assert_eq!(u64_to_decimal(0), "0");
    assert_eq!(u64_to_decimal(18446744073709551615), "18446744073709551615");
    assert_eq!(i64_to_decimal(-42), "-42");
    assert_eq!(i64_to_decimal(i64::MIN), "-9223372036854775808");
}

#[test]
fn prefixes_and_paths() {
    assert!(starts_with("--model=x", "--model="));
    assert!(!starts_with("--mod", "--model"));
    assert_eq!(strip_prefix("--model=x", "--model="), Some("x"));
    assert_eq!(strip_prefix("x", "y"), None);
    assert_eq!(join_path("/a", "b"), "/a/b");
    assert_eq!(join_path("/a/", "b"), "/a/b");
    assert_eq!(join_path("", "b"), "b");
}

#[test]
fn trimming_and_byte_cuts() {
    assert_eq!(trim_text("  a b \n\t"), "a b");
    assert_eq!(trim_text("\u{3000}x\u{85}"), "x");
    assert_eq!(trim_text("   "), "");
    assert_eq!(truncate_bytes("héllo", 2), "h");
    assert_eq!(truncate_bytes("héllo", 3), "hé");
    assert_eq!(truncate_bytes("abc", 10), "abc");
    assert_eq!(truncate_bytes("abc", 3), "abc");
    assert_eq!(truncate_bytes("€", 2), "");
}

//! The wrapper's names, arguments and pump.
use corral::agentwrap::{derive_label, parse_args, socket_path, Pump, USAGE};
use corral::discovery::parse_socket_filename;

#[test]
fn label_from_command_basename() {
    assert_eq!(
        derive_label(None, "/usr/bin/opencode-agent-acp"),
        "opencode-agent-acp"
    );
    assert_eq!(derive_label(None, "gemini"), "gemini");
}

#[test]
fn explicit_name_wins() {
    assert_eq!(derive_label(Some("myagent"), "/usr/bin/x"), "myagent");
}

#[test]
fn empty_or_whitespace_name_falls_back_to_command() {
    assert_eq!(derive_label(Some("  "), "/usr/bin/x"), "x");
}

#[test]
fn weird_characters_are_sanitized() {
    assert_eq!(derive_label(Some("a b/c"), "x"), "a_b_c");
}

#[test]
fn socket_path_follows_convention() {
    assert_eq!(
        socket_path("/run/user/1000", "opencode", 42),
        "/run/user/1000/acp/opencode-42.sock"
    );
}

fn args(v: &[&str]) -> Vec<String> {
    v.iter().map(|s| s.to_string()).collect()
}

#[test]
fn arguments_name_a_label_and_a_command() {
    let c = parse_args(&args(&["--name", "x", "--", "cmd", "--name"])).unwrap();
    assert_eq!(c.label.as_deref(), Some("x"));
    assert_eq!(c.command, ["cmd", "--name"]);
    let c = parse_args(&args(&["cmd", "a"])).unwrap();
    assert_eq!(c.label, None);
    assert_eq!(c.command, ["cmd", "a"]);
    assert!(parse_args(&args(&[])).is_err());
    assert!(parse_args(&args(&["--name"])).is_err());
    assert!(parse_args(&args(&["--"])).is_err());
    assert!(USAGE.starts_with("usage: agentwrap"));
}

#[test]
fn a_label_may_hold_letters_of_any_script() {
    assert_eq!(derive_label(Some("añ日!"), "x"), "añ日_");
    assert_eq!(derive_label(Some(" . "), "/bin/sh"), ".");
}

#[test]
fn the_socket_is_found_by_its_name() {
    let p = socket_path("/run", "a_b", 7);
    let name = p.rsplit('/').next().unwrap();
    assert_eq!(parse_socket_filename(name), Some(("a_b".to_string(), 7)));
}

#[test]
fn the_pump_keeps_what_was_not_sent() {
    let mut p = Pump::new();
    assert!(p.chunk().is_none());
    p.load(vec![1, 2]);
    p.sent(false);
    assert_eq!(p.chunk(), Some(&vec![1, 2]));
    p.sent(true);
    assert!(p.chunk().is_none());
}

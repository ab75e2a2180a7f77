//! How agents are started.
use corral::launch::{
    candidates, default_cwd, launch_report, plan_launch, resolve_terminal_from, setsid_args, with_message, LaunchMode,
};

// A fake path-checker: only these programs "exist".
fn only(names: &'static [&'static str]) -> impl Fn(&str) -> bool {
    move |p: &str| names.contains(&p)
}

#[test]
fn ladder_prefers_xdg_terminal_exec() {
    // xdg present wins regardless of the other two.
    let r = resolve_terminal_from(true, Some("alacritty -e"), Some("foot"), &only(&[]));
    assert_eq!(r, Some(vec!["xdg-terminal-exec".to_string()]));
}

#[test]
fn ladder_uses_corral_terminal_template_when_no_xdg() {
    // The user's explicit template is split into argv and its program checked.
    let r = resolve_terminal_from(false, Some("alacritty -e"), None, &only(&["alacritty"]));
    assert_eq!(r, Some(vec!["alacritty".to_string(), "-e".to_string()]));
}

#[test]
fn ladder_skips_corral_terminal_whose_program_is_absent() {
    // CORRAL_TERMINAL set but its binary is not installed: fall through.
    let r = resolve_terminal_from(false, Some("ghostty"), Some("foot"), &only(&["foot"]));
    assert_eq!(r, Some(vec!["foot".to_string(), "-e".to_string()]));
}

#[test]
fn ladder_falls_back_to_terminal_with_dash_e() {
    let r = resolve_terminal_from(false, None, Some("foot"), &only(&["foot"]));
    assert_eq!(r, Some(vec!["foot".to_string(), "-e".to_string()]));
}

#[test]
fn ladder_none_when_nothing_resolves() {
    // No xdg, no CORRAL_TERMINAL, and $TERMINAL binary absent -> error path.
    assert_eq!(
        resolve_terminal_from(false, None, Some("foot"), &only(&[])),
        None
    );
    assert_eq!(resolve_terminal_from(false, None, None, &only(&[])), None);
}

#[test]
fn ladder_ignores_empty_env_values() {
    assert_eq!(
        resolve_terminal_from(false, Some(""), Some(""), &only(&[""])),
        None
    );
}

#[test]
fn no_message_is_the_bare_command() {
    assert_eq!(with_message(&vec!["pi".to_string()], None, None), ["pi"]);
}

#[test]
fn message_is_appended_as_final_arg() {
    assert_eq!(
        with_message(
            &vec!["pi".to_string(), "--session".to_string(), "/s".to_string()],
            Some("hello"),
            None
        ),
        ["pi", "--session", "/s", "hello"]
    );
}

#[test]
fn message_flag_rides_as_a_flag_value_unguarded() {
    // With a flag, the message is the flag's value: two args, no guard
    // even for a leading dash (it is bound to the flag, not positional).
    assert_eq!(
        with_message(
            &vec!["quine".to_string(), "--corral".to_string()],
            Some("hi"),
            Some("--message")
        ),
        ["quine", "--corral", "--message", "hi"]
    );
    assert_eq!(
        with_message(&vec!["quine".to_string()], Some("-x"), Some("--message")),
        ["quine", "--message", "-x"]
    );
}

#[test]
fn leading_dash_or_at_is_space_guarded() {
    // An arg parser would otherwise read these as a flag / file argument.
    assert_eq!(
        with_message(&vec!["pi".to_string()], Some("-x"), None),
        ["pi", " -x"]
    );
    assert_eq!(
        with_message(&vec!["pi".to_string()], Some("@f"), None),
        ["pi", " @f"]
    );
    // A tag-prefixed agent message starts with '[', so it is untouched.
    assert_eq!(
        with_message(&vec!["pi".to_string()], Some("[from agent] hi"), None),
        ["pi", "[from agent] hi"]
    );
}

#[test]
fn gui_launch_omits_the_terminal_prefix() {
    let term = vec!["xdg-terminal-exec".to_string()];
    let cmd = vec!["quine".to_string(), "--corral".to_string()];
    let gui = LaunchMode {
        gui: true,
        message_flag: None,
        hidden: false,
    };
    let term_mode = LaunchMode::default();
    // GUI: run the command directly, no terminal prefix.
    assert_eq!(
        setsid_args(&gui, &term, &cmd, None),
        vec!["quine".to_string(), "--corral".to_string()]
    );
    // Non-GUI: terminal prefix in front, exactly as before.
    assert_eq!(
        setsid_args(&term_mode, &term, &cmd, None),
        vec![
            "xdg-terminal-exec".to_string(),
            "quine".to_string(),
            "--corral".to_string()
        ]
    );
    // The message is appended in both modes.
    assert_eq!(
        setsid_args(&gui, &term, &cmd, Some("hi")),
        vec!["quine".to_string(), "--corral".to_string(), "hi".to_string()]
    );
}

#[test]
fn hidden_wraps_argv_in_headless_cage() {
    let term = vec!["xdg-terminal-exec".to_string()];
    let cmd = vec!["pi".to_string()];
    // Hidden terminal agent: cage wraps the terminal+command.
    let hidden = LaunchMode {
        gui: false,
        message_flag: None,
        hidden: true,
    };
    assert_eq!(
        setsid_args(&hidden, &term, &cmd, None),
        vec![
            "env",
            "WLR_BACKENDS=headless",
            "CORRAL_HIDDEN=1",
            "cage",
            "--",
            "xdg-terminal-exec",
            "pi",
        ]
    );
    // Hidden GUI agent: cage wraps the command directly (no terminal).
    let hidden_gui = LaunchMode {
        gui: true,
        message_flag: None,
        hidden: true,
    };
    let gui_cmd = vec!["quine".to_string(), "--corral".to_string()];
    assert_eq!(
        setsid_args(&hidden_gui, &term, &gui_cmd, None),
        vec![
            "env",
            "WLR_BACKENDS=headless",
            "CORRAL_HIDDEN=1",
            "cage",
            "--",
            "quine",
            "--corral",
        ]
    );
    // A launch message still appends inside the wrapped argv.
    assert_eq!(
        setsid_args(&hidden, &term, &cmd, Some("hi")),
        vec![
            "env",
            "WLR_BACKENDS=headless",
            "CORRAL_HIDDEN=1",
            "cage",
            "--",
            "xdg-terminal-exec",
            "pi",
            "hi",
        ]
    );
}

#[test]
fn the_default_directory_is_home_or_here() {
    assert_eq!(default_cwd(Some("/w"), Some("/home/u")), "/w");
    assert_eq!(default_cwd(None, Some("/home/u")), "/home/u");
    assert_eq!(default_cwd(None, None), ".");
}

#[test]
fn a_program_is_looked_for_on_the_search_path() {
    assert_eq!(candidates("sh", Some("/usr/bin:/bin/")), vec!["/usr/bin/sh", "/bin/sh"]);
    assert_eq!(candidates("/bin/sh", Some("/usr/bin")), vec!["/bin/sh"]);
    assert_eq!(candidates("sh", Some("")), vec!["sh"]);
    assert!(candidates("sh", None).is_empty());
}

#[test]
fn a_launch_needs_a_command_and_a_terminal() {
    let command: Vec<String> = vec!["pi".into()];
    let mode = LaunchMode::default();
    let gui = LaunchMode { gui: true, message_flag: None, hidden: false };
    assert_eq!(
        plan_launch(&mode, Some(vec!["kitty".into()]), &vec![], None),
        Err("launch: empty command".into())
    );
    let refused = plan_launch(&mode, None, &command, None).unwrap_err();
    assert!(refused.starts_with("no terminal found: install xdg-terminal-exec, or set $CORRAL_TERMINAL"));
    assert_eq!(
        plan_launch(&mode, Some(vec!["kitty".into(), "-e".into()]), &command, Some("hi")).unwrap(),
        vec!["kitty", "-e", "pi", "hi"]
    );
    // An agent that draws its own window needs no terminal.
    assert_eq!(plan_launch(&gui, None, &command, None).unwrap(), vec!["pi"]);
    assert_eq!(launch_report(&Ok(true)), Ok(()));
    assert_eq!(launch_report(&Ok(false)), Err("terminal launch returned non-zero".into()));
    assert_eq!(launch_report(&Err("gone".into())), Err("terminal launch failed: gone".into()));
}

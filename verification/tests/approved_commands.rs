//! What the operator has approved, and what is recognised by it.
use corral::approved_commands::{
    approved_json, candidate, denormalize, mode_approved, normalize, parse_approved, read_approved,
    register, registered, Approved, Mode, Template, CWD_PLACEHOLDER, SESSION_PLACEHOLDER,
};
use corral::discovery::RegistryEntry;

fn rec(label: Option<&str>, sid: &str, cwd: Option<&str>) -> RegistryEntry {
    RegistryEntry {
        session_id: sid.into(),
        cwd: cwd.map(String::from),
        title: None,
        socket: None,
        pid: None,
        pid_namespace: None,
        spawn_command: None,
        resume_command: None,
        label: label.map(String::from),
        last_seen: None,
        gui: false,
        message_flag: None,
        hidden: false,
        description: None,
        model: None,
        entries: None,
        context_percent: None,
        context_age: None,
    }
}

#[test]
fn normalize_substitutes_own_session_and_cwd() {
    let argv: Vec<String> = vec![
        "pi".into(),
        "--session".into(),
        "abc-123".into(),
        "/home/dev/x".into(),
    ];
    let n = normalize(&argv, "abc-123", Some("/home/dev/x"));
    assert_eq!(
        n,
        vec!["pi", "--session", SESSION_PLACEHOLDER, CWD_PLACEHOLDER]
    );
    // A different session's argv normalizes identically -> one template.
    let other: Vec<String> = vec!["pi".into(), "--session".into(), "zzz-999".into(), "/home/dev/x".into()];
    assert_eq!(normalize(&other, "zzz-999", Some("/home/dev/x")), n);
}

#[test]
fn denormalize_round_trips() {
    let tmpl: Vec<String> = vec!["pi".into(), "--session".into(), SESSION_PLACEHOLDER.into()];
    assert_eq!(
        denormalize(&tmpl, "abc-123", None),
        vec!["pi", "--session", "abc-123"]
    );
}

#[test]
fn registered_only_when_label_and_commands_match() {
    let mut r = rec(Some("pi"), "s1", Some("/w"));
    r.spawn_command = Some(vec!["pi".into()]);
    r.resume_command = Some(vec!["pi".into(), "--session".into(), "s1".into()]);
    let approved = register(Approved::new(), &r);
    // The same shape (any session) is registered.
    let mut r2 = rec(Some("pi"), "s2", Some("/w2"));
    r2.spawn_command = Some(vec!["pi".into()]);
    r2.resume_command = Some(vec!["pi".into(), "--session".into(), "s2".into()]);
    assert!(registered(&r2, &approved));
    assert!(mode_approved(&r2, &approved, Mode::Spawn));
    assert!(mode_approved(&r2, &approved, Mode::Resume));
}

#[test]
fn deviating_argv_is_quarantined() {
    let mut r = rec(Some("pi"), "s1", None);
    r.spawn_command = Some(vec!["pi".into()]);
    let approved = register(Approved::new(), &r);
    // An attacker claims label pi but a bash spawn -> deviates -> not registered.
    let mut evil = rec(Some("pi"), "s9", None);
    evil.spawn_command = Some(vec!["bash".into(), "-c".into(), "rm -rf ~".into()]);
    assert!(!registered(&evil, &approved));
    assert!(!mode_approved(&evil, &approved, Mode::Spawn));
}

#[test]
fn unregistered_label_and_no_label_are_quarantined() {
    let approved = Approved::new();
    let mut r = rec(Some("pi"), "s1", None);
    r.spawn_command = Some(vec!["pi".into()]);
    assert!(!registered(&r, &approved), "empty store registers nothing");
    assert!(!registered(&rec(None, "s1", None), &approved), "no label");
}

#[test]
fn adding_a_deviating_mode_quarantines() {
    // Template has spawn only; a record adding an (unapproved) resume deviates.
    let mut r = rec(Some("pi"), "s1", None);
    r.spawn_command = Some(vec!["pi".into()]);
    let approved = register(Approved::new(), &r);
    let mut with_resume = rec(Some("pi"), "s1", None);
    with_resume.spawn_command = Some(vec!["pi".into()]);
    with_resume.resume_command = Some(vec!["pi".into(), "--session".into(), "s1".into()]);
    assert!(!registered(&with_resume, &approved));
}

#[test]
fn store_json_round_trips() {
    let mut r = rec(Some("pi"), "s1", None);
    r.spawn_command = Some(vec!["pi".into()]);
    r.resume_command = Some(vec!["pi".into(), "--session".into(), "s1".into()]);
    let approved = register(Approved::new(), &r);
    let json = approved_json(&approved);
    assert_eq!(parse_approved(&json), approved);
    // Placeholders survive the round trip.
    assert!(json.contains(SESSION_PLACEHOLDER));
}

#[test]
fn malformed_store_is_empty() {
    assert!(parse_approved("not json").is_empty());
    assert!(parse_approved("[]").is_empty());
}

#[test]
fn sessions_of_a_kind_share_a_template() {
    let template: Vec<String> = vec![
        "pi".into(),
        "--session".into(),
        SESSION_PLACEHOLDER.into(),
        "--in".into(),
        CWD_PLACEHOLDER.into(),
    ];
    let a = denormalize(&template, "s1", Some("/w/a"));
    let b = denormalize(&template, "s2", Some("/w/b"));
    assert_eq!(a, vec!["pi", "--session", "s1", "--in", "/w/a"]);
    assert_ne!(a, b);
    assert_eq!(normalize(&a, "s1", Some("/w/a")), template);
    assert_eq!(normalize(&b, "s2", Some("/w/b")), template);
}

#[test]
fn a_stored_command_with_a_member_that_is_no_text_is_dropped() {
    let store = parse_approved(r#"{"pi":{"spawn":["pi",42],"resume":["pi","-r"]}}"#);
    assert_eq!(store.get("pi").unwrap().spawn, None);
    assert_eq!(store.get("pi").unwrap().resume, Some(vec!["pi".to_string(), "-r".to_string()]));
}

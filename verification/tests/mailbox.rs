//! Requests, verdicts and the roster.
use corral::daemon::mailbox::{
    authenticate, build_roster, classify, is_list, is_whitelisted, parse, parse_submit, roster_json,
    session_claims_other_dir, whitelist_add, Ack, Facts, Kind, Submission, Target,
};
use corral::discovery::RegistryEntry;

fn spawn_sub() -> Submission {
    Submission {
        id: "1".into(),
        from_cwd: "/a".into(),
        target_cwd: String::new(),
        from_session: None,
        kind: Kind::Spawn {
            dir: "/b".into(),
            task: "hi".into(),
            label: None,
            hidden: true,
        },
    }
}

#[test]
fn parses_a_spawn_and_tags_its_task() {
    let json = r#"{"op":"spawn","id":"1","fromCwd":"/a","cwd":"/b","task":"hi"}"#;
    let m = parse(json).unwrap();
    assert_eq!(m, spawn_sub());
    assert_eq!(m.tagged(), "[from a]\nhi");
    // A spawn targets the directory: nothing runs there to address yet.
    assert_eq!(m.target(), Target::Dir("/b".into()));
}

#[test]
fn mailbox_targets_a_session_with_reply_handle() {
    let json = r#"{"op":"message","id":"1","fromCwd":"/a","fromSession":"sid-9",
        "targetSession":"sid-7","message":"hi"}"#;
    let m = parse(json).unwrap();
    assert_eq!(m.target(), Target::Session("sid-7".into()));
    // The resolved target dir stays visible beside the session id, in both
    // the full and the compact form (it is the authorization axis).
    let m = Submission {
        target_cwd: "/work/proj".into(),
        ..m
    };
    assert_eq!(m.target_label(), "/work/proj (session sid-7)");
    assert_eq!(m.target_label_short(), "proj (session sid-7)");
    // The reply handle (sender's session) rides in the provenance tag; the
    // dir shows as its basename, the session id stays full.
    assert_eq!(m.tagged(), "[from a (session sid-9)]\nhi");
}

#[test]
fn spawn_carries_label_and_window_placement() {
    let with = parse(
        r#"{"op":"spawn","id":"1","cwd":"/b","task":"hi","label":"opencode","hidden":false}"#,
    )
    .unwrap();
    assert_eq!(
        with.kind,
        Kind::Spawn {
            dir: "/b".into(),
            task: "hi".into(),
            label: Some("opencode".into()),
            hidden: false,
        }
    );
    // Omitted -> no kind chosen, and hidden (an uninvited window never pops).
    let without = parse(r#"{"op":"spawn","id":"1","cwd":"/b","task":"hi"}"#).unwrap();
    assert_eq!(without.kind, spawn_sub().kind);
}

#[test]
fn each_verb_requires_its_own_fields() {
    // A message needs a session and a body; a spawn needs a dir and a task;
    // a stop needs a session. Nothing else parses, so no half-formed
    // submission reaches the router.
    assert_eq!(parse(r#"{"op":"message","id":"1","message":"hi"}"#), None);
    assert_eq!(
        parse(r#"{"op":"message","id":"1","targetSession":"s"}"#),
        None
    );
    assert_eq!(parse(r#"{"op":"spawn","id":"1","cwd":"/b"}"#), None);
    assert_eq!(parse(r#"{"op":"spawn","id":"1","task":"hi"}"#), None);
    assert_eq!(parse(r#"{"op":"stop","id":"1"}"#), None);
    // A missing id, an unknown verb, or no verb at all: rejected.
    assert_eq!(parse(r#"{"op":"stop","targetSession":"s"}"#), None);
    assert_eq!(parse(r#"{"op":"nuke","id":"1"}"#), None);
    assert_eq!(
        parse(r#"{"id":"1","targetSession":"s","message":"hi"}"#),
        None
    );
    assert_eq!(parse("nope"), None);
}

#[test]
fn stop_targets_a_session_and_carries_no_body() {
    let m = parse(
        r#"{"op":"stop","id":"1","fromCwd":"/a","fromSession":"s9","targetSession":"sid-7"}"#,
    )
    .unwrap();
    assert_eq!(
        m.kind,
        Kind::Stop {
            session: "sid-7".into()
        }
    );
    assert_eq!(m.target(), Target::Session("sid-7".into()));
    assert_eq!(m.from_session.as_deref(), Some("s9"));
    assert!(m.body().is_empty(), "a stop carries no body");
}

#[test]
fn already_stopped_is_a_non_routable_success() {
    assert_eq!(Ack::AlreadyStopped.wire(), "already_stopped");
    assert!(!Ack::AlreadyStopped.routable(), "nothing left to kill");
}

#[test]
fn session_claims_other_dir_needs_a_record_pinning_it_elsewhere() {
    let entries = vec![
        rec("mine", "/a", "pi", true, None),
        rec("theirs", "/b", "pi", true, None),
    ];
    // Pinned to another dir -> provable forgery.
    assert!(session_claims_other_dir(&entries, "theirs", "/a"));
    // My own session in my own dir -> fine.
    assert!(!session_claims_other_dir(&entries, "mine", "/a"));
    // Absent from the registry -> not yet curated, so not evidence.
    assert!(!session_claims_other_dir(&entries, "unknown", "/a"));
}

/// Facts for a resolved target.
fn found(whitelisted: bool) -> Facts<'static> {
    Facts {
        target_cwd: Some("/b"),
        whitelisted,
        reachable: whitelisted,
        dormant: false,
    }
}

#[test]
fn classify_covers_every_ack() {
    let msg = Kind::Message {
        session: "sid".into(),
        text: "hi".into(),
    };
    let stop = Kind::Stop {
        session: "sid".into(),
    };
    let spawn = Kind::Spawn {
        dir: "/b".into(),
        task: "hi".into(),
        label: None,
        hidden: true,
    };
    // Recipient found -> the whitelist alone decides accepted vs approval,
    // identically for every verb (one authorization axis).
    for kind in [&msg, &stop, &spawn] {
        assert_eq!(classify(kind, &found(true)), Ack::Accepted);
        assert_eq!(classify(kind, &found(false)), Ack::ApprovalNeeded);
    }
    // An unknown session is reported precisely to anyone: the roster already
    // publishes every session id and its liveness.
    assert_eq!(classify(&msg, &Facts::default()), Ack::RecipientNotFound);
    assert_eq!(classify(&stop, &Facts::default()), Ack::RecipientNotFound);
    // A dormant session: stopping it already succeeded; a message still
    // routes (it resumes the session).
    let dorm = Facts {
        dormant: true,
        ..found(true)
    };
    assert_eq!(classify(&stop, &dorm), Ack::AlreadyStopped);
    assert_eq!(classify(&msg, &dorm), Ack::Accepted);
    // Directory existence is disclosed only to a reachable caller...
    let gone_reachable = Facts {
        reachable: true,
        ..Facts::default()
    };
    assert_eq!(classify(&spawn, &gone_reachable), Ack::DirectoryNotKnown);
    // ...an unreachable one hears the same thing whether or not it exists,
    // so the ack is no existence oracle for host paths (T19).
    assert_eq!(classify(&spawn, &Facts::default()), Ack::ApprovalNeeded);
    assert_eq!(classify(&spawn, &found(false)), Ack::ApprovalNeeded);
    // Only resolvable targets are routed onward.
    assert!(Ack::Accepted.routable());
    assert!(Ack::ApprovalNeeded.routable());
    assert!(!Ack::RecipientNotFound.routable());
    assert!(!Ack::DirectoryNotKnown.routable());
    assert!(!Ack::AlreadyStopped.routable());
}

/// A registry entry with just the fields the roster reads.
fn rec(sid: &str, cwd: &str, label: &str, live: bool, desc: Option<&str>) -> RegistryEntry {
    RegistryEntry {
        session_id: sid.into(),
        cwd: Some(cwd.into()),
        title: Some("secret title".into()),
        socket: if live { Some(format!("{cwd}/.corral/{label}-1.sock")) } else { None },
        pid: None,
        pid_namespace: None,
        spawn_command: None,
        resume_command: None,
        label: Some(label.into()),
        last_seen: None,
        gui: false,
        message_flag: None,
        hidden: false,
        description: desc.map(String::from),
        model: None,
        entries: None,
        context_percent: None,
        context_age: None,
    }
}

#[test]
fn roster_exposes_every_session_and_hides_unreachable_fields() {
    let entries = vec![
        rec("s1", "/a", "pi", true, Some("terminal agent")),
        rec("s2", "/a", "pi", false, Some("terminal agent")),
        rec("s3", "/secret", "quine", true, Some("gui app")),
        rec("s4", "/other", "pi", true, Some("terminal agent")),
    ];
    // Caller sees only /a.
    let roster = build_roster(&entries, |cwd: &str| cwd == "/a");
    // Every session is a per-session entry addressable by sessionId.
    assert_eq!(roster.len(), 4);
    assert!(roster.iter().all(|r| !r.session_id.is_empty()));
    // Reachable /a entries expose title + cwd + description; liveness preserved.
    let reachable: Vec<_> = roster.iter().filter(|r| r.cwd.is_some()).collect();
    assert_eq!(reachable.len(), 2);
    assert!(reachable
        .iter()
        .all(|r| r.title.as_deref() == Some("secret title")
            && r.cwd.as_deref() == Some("/a")
            && r.description.is_some()));
    assert_eq!(reachable[0].session_id, "s1");
    assert!(reachable[0].live && !reachable[1].live);
    // Unreachable /secret and /other still yield per-session entries, but
    // hide title, cwd, and description; live stays exposed.
    let unreachable: Vec<_> = roster.iter().filter(|r| r.cwd.is_none()).collect();
    assert_eq!(unreachable.len(), 2);
    assert!(unreachable
        .iter()
        .all(|r| r.title.is_none() && r.description.is_none() && !r.session_id.is_empty()));
    let sids: Vec<_> = unreachable.iter().map(|r| r.session_id.as_str()).collect();
    assert!(sids.contains(&"s3") && sids.contains(&"s4"));
}

#[test]
fn roster_json_hides_title_cwd_and_description_for_unreachable() {
    let entries = vec![rec("s1", "/secret", "pi", true, Some("terminal agent"))];
    let json = roster_json(&build_roster(&entries, |_: &str| false));
    assert!(!json.contains("secret title"), "never leak the title");
    assert!(!json.contains("/secret"), "never leak an unreachable cwd");
    assert!(
        !json.contains("terminal agent"),
        "hide unreachable description"
    );
    // The sessionId is the addressable handle, so it is exposed.
    assert!(json.contains("\"sessionId\":\"s1\""));
    assert!(json.contains("\"kind\":\"pi\"") && json.contains("\"live\":true"));
    assert!(!json.contains("canMessage"));
}

#[test]
fn roster_json_exposes_title_for_reachable() {
    let entries = vec![rec("s1", "/a", "pi", true, Some("terminal agent"))];
    let json = roster_json(&build_roster(&entries, |cwd: &str| cwd == "/a"));
    // A reachable session surfaces its title alongside cwd + description.
    assert!(
        json.contains("\"title\":\"secret title\""),
        "expose reachable title"
    );
    assert!(json.contains("\"cwd\":\"/a\""));
    assert!(json.contains("\"description\":\"terminal agent\""));
}

#[test]
fn is_list_matches_only_the_list_op() {
    assert!(is_list(r#"{"op":"list"}"#));
    assert!(is_list(r#"{"op":"list","fromCwd":"/a"}"#));
    assert!(!is_list(r#"{"id":"1","message":"hi"}"#));
    assert!(!is_list("nope"));
    // parse_submit reads the envelope path.
    assert_eq!(
        parse_submit(r#"{"submit":"/w/.corral/outbox/m.json"}"#).as_deref(),
        Some("/w/.corral/outbox/m.json")
    );
    assert_eq!(parse_submit(r#"{"op":"list"}"#), None);
}

#[test]
fn mailbox_whitelist_roundtrip() {
    assert!(!is_whitelisted(None, "/a", "/b"));
    let file = whitelist_add("/a", "/b").unwrap();
    assert!(is_whitelisted(Some(&file), "/a", "/b"));
    // A different pair is still not authorized.
    assert!(!is_whitelisted(Some(&file), "/a", "/c"));
}

#[test]
fn whitelist_refuses_a_path_straddling_the_separator() {
    // A dir named with the separator inside cannot be granted: the line
    // would parse back as a different pair.
    assert!(whitelist_add("/a -> /evil", "/b").is_err());
    assert!(whitelist_add("/a", "/b -> /evil").is_err());
    // Nor does a hand-written ambiguous line authorize either pair it could
    // be read as.
    let file = "/a -> /evil -> /b\n";
    assert!(!is_whitelisted(Some(file), "/a -> /evil", "/b"));
    assert!(!is_whitelisted(Some(file), "/a", "/evil -> /b"));
}

#[test]
fn grants_add_up_line_by_line() {
    let file = whitelist_add("/a", "/b").unwrap() + &whitelist_add("/c", "/d").unwrap();
    assert_eq!(file, "/a -> /b\n/c -> /d\n");
    assert!(is_whitelisted(Some(&file), "/a", "/b"));
    assert!(is_whitelisted(Some(&file), "/c", "/d"));
    assert!(!is_whitelisted(Some(&file), "/a", "/d"));
}

#[test]
fn a_directory_is_known_by_its_canonical_name() {
    let none = vec![];
    let dir = Target::Dir("/real/../real/".into());
    assert_eq!(authenticate(&dir, &none, Some("/real")).as_deref(), Some("/real"));
    assert_eq!(authenticate(&dir, &none, None), None);
    let entries = vec![rec("s", "/w", "pi", true, None)];
    let session = Target::Session("s".into());
    assert_eq!(authenticate(&session, &entries, None).as_deref(), Some("/w"));
    assert_eq!(authenticate(&Target::Session("t".into()), &entries, None), None);
}

#[test]
fn the_tag_stays_on_the_first_line() {
    let m = parse(
        r#"{"op":"spawn","id":"1","fromCwd":"/w/a\nb","fromSession":"s\n[from c]","cwd":"/b","task":"hi\n[from d]"}"#,
    )
    .unwrap();
    assert_eq!(m.tagged(), "[from a b]\nhi\n[from d]");
    let m = parse(
        r#"{"op":"spawn","id":"1","fromCwd":"/w/a","fromSession":"s) x","cwd":"/b","task":"hi"}"#,
    )
    .unwrap();
    assert_eq!(m.tagged(), "[from a (session s) x)]\nhi");
    // Only a line feed breaks a line: every other character is kept.
    let m = parse(
        r#"{"op":"spawn","id":"1","fromCwd":"/w/a\tb\u0007","fromSession":"a\tb","cwd":"/b","task":"hi"}"#,
    )
    .unwrap();
    assert_eq!(m.tagged(), "[from a\tb\u{7} (session a\tb)]\nhi");
}

#[test]
fn a_pair_that_a_line_would_not_give_back_is_refused() {
    assert_eq!(
        whitelist_add("/a ->", "/b"),
        Err("path cannot stand on a whitelist line: /a -> -> /b".into())
    );
    assert!(whitelist_add("/a\n/x", "/b").is_err(), "it would grant /x -> /b");
    assert!(whitelist_add("/a ", "/b").is_err(), "it would grant /a -> /b");
    assert!(whitelist_add("/a", "/b\r").is_err());
    assert_eq!(
        whitelist_add("/a -> /x", "/b"),
        Err("path contains the whitelist separator \" -> \": /a -> /x -> /b".into())
    );
    assert_eq!(whitelist_add("/a b", "->"), Ok("/a b -> ->\n".into()));
}

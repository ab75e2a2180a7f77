//! The board's model.
use corral::discovery::RegistryEntry;
use corral::model::{Agent, Board, Column, Origin, State, Update};

fn agent(path: &str, state: State) -> Agent {
    Agent {
        socket_path: path.to_string(),
        pid: 1,
        label: "pi".into(),
        session_id: Some(path.into()),
        title: None,
        cwd: None,
        state,
        origin: Origin::Live,
        spawn_command: None,
        resume_command: None,
        activity: None,
        gui: false,
        message_flag: None,
        hidden: false,
        model: None,
        state_since: 0,
        last_activity: 0,
    }
}

#[test]
fn live_agent_gets_hidden_and_resume_from_record() {
    let mut b = Board::default();
    // A live agent keyed by socket; session id links it to a record.
    b.apply(Update::Upsert(agent("sess-1", State::Running)), 0);
    let rec = RegistryEntry {
        session_id: "sess-1".into(),
        cwd: Some("/tmp/p".into()),
        title: None,
        socket: Some("/tmp/p/.corral/pi-9.sock".to_string()),
        pid: None,
        pid_namespace: None,
        spawn_command: Some(vec!["pi".into()]),
        resume_command: Some(vec!["pi".into(), "--session".into(), "sess-1".into()]),
        label: Some("pi".into()),
        last_seen: None,
        gui: false,
        message_flag: None,
        hidden: true,
        description: None,
        model: None,
        entries: None,
        context_percent: None,
        context_age: None,
    };
    b.sync_registry(&vec![rec], &vec![]);
    let live = b.in_state(State::Running);
    assert_eq!(live.len(), 1);
    assert!(live[0].hidden, "live agent must inherit hidden from its record");
    assert_eq!(
        live[0].resume_command.as_deref().unwrap(),
        ["pi", "--session", "sess-1"],
        "live agent must carry resume_command for reveal/hide"
    );
    assert!(live[0].launch_mode().hidden);
}

fn dormant_record(id: &str, cwd: &str, last_seen: &str) -> RegistryEntry {
    RegistryEntry {
        session_id: id.into(),
        cwd: Some(cwd.into()),
        title: Some(id.into()),
        socket: None,
        pid: None,
        pid_namespace: None,
        spawn_command: Some(vec!["pi".into()]),
        resume_command: Some(vec![
            "pi".into(),
            "--session".into(),
            format!("/s/{id}.jsonl"),
        ]),
        label: Some("pi".into()),
        last_seen: Some(last_seen.into()),
        gui: false,
        message_flag: None,
        hidden: false,
        description: None,
        model: None,
        entries: None,
        context_percent: None,
        context_age: None,
    }
}

#[test]
fn dormant_agent_inherits_gui_from_record() {
    let mut board = Board::default();
    let rec = RegistryEntry {
        session_id: "q1".into(),
        cwd: Some("/tmp/q".into()),
        title: None,
        socket: None, // cleared => dormant
        pid: None,
        pid_namespace: None,
        spawn_command: Some(vec!["quine".into(), "--corral".into()]),
        resume_command: Some(vec![
            "quine".into(),
            "--session".into(),
            "q1".into(),
            "--corral".into(),
        ]),
        label: Some("quine".into()),
        last_seen: None,
        gui: true,
        message_flag: Some("--message".into()),
        hidden: false,
        description: None,
        model: None,
        entries: None,
        context_percent: None,
        context_age: None,
    };
    board.sync_registry(&vec![rec], &vec![]);
    let dormant = board.dormant();
    assert_eq!(dormant.len(), 1);
    assert!(dormant[0].gui, "dormant quine card must carry gui=true");
    assert_eq!(
        dormant[0].message_flag.as_deref(),
        Some("--message"),
        "dormant quine card must carry the message flag"
    );
}

#[test]
fn model_state_wire_mapping() {
    assert_eq!(State::from_wire("running"), Some(State::Running));
    assert_eq!(State::from_wire("idle"), Some(State::Idle));
    assert_eq!(
        State::from_wire("requires_action"),
        Some(State::RequiresAction)
    );
    assert_eq!(State::from_wire("bogus"), None);
}

#[test]
fn matches_query_is_fuzzy_and_searches_the_label() {
    let mut a = agent("/s/pi-1.sock", State::Idle);
    a.title = Some("Fix parser".into());
    a.cwd = Some("/home/me/corral".into());
    a.label = "opencode".into();
    // Non-contiguous subsequence of the title matches.
    assert!(a.matches_query("fxprs"));
    // The harness label is part of the haystack, fuzzily too.
    assert!(a.matches_query("opencode"));
    assert!(a.matches_query("ocod"));
    // Order matters (subsequence, not anagram) and absent chars fail.
    assert!(!a.matches_query("edocnepo"));
    assert!(!a.matches_query("zzz"));
}

#[test]
fn column_groups_by_cwd_most_used_first() {
    let mut b = Board::default();
    let mk = |sock: &str, cwd: &str| {
        let mut a = agent(sock, State::Idle);
        a.cwd = Some(cwd.into());
        a
    };
    b.apply(Update::Upsert(mk("/s/pi-1.sock", "/b")), 0);
    b.apply(Update::Upsert(mk("/s/pi-2.sock", "/a")), 0);
    b.apply(Update::Upsert(mk("/s/pi-3.sock", "/a")), 0);
    let cwds: Vec<&str> = b
        .column(Column::Idle)
        .iter()
        .map(|a| a.cwd.as_deref().unwrap())
        .collect();
    // /a occurs twice, so its group sorts ahead of the single /b.
    assert_eq!(cwds, vec!["/a", "/a", "/b"]);
}

#[test]
fn dormant_column_stays_age_ordered_ignoring_cwd_grouping() {
    let mut b = Board::default();
    // /busy occurs twice, /solo once. cwd grouping would float /busy up,
    // but the Dormant column must ignore that and stay newest-first.
    b.sync_registry(
        &vec![
            dormant_record("newest", "/solo", "2026-06-03T00:00:00Z"),
            dormant_record("middle", "/busy", "2026-06-02T00:00:00Z"),
            dormant_record("oldest", "/busy", "2026-06-01T00:00:00Z"),
        ],
        &vec![],
    );
    let ids: Vec<&str> = b
        .column(Column::Dormant)
        .iter()
        .map(|a| a.session_id.as_deref().unwrap())
        .collect();
    assert_eq!(ids, vec!["newest", "middle", "oldest"]);
}

#[test]
fn model_upsert_then_set_state() {
    let mut b = Board::default();
    b.apply(Update::Upsert(agent("/s/pi-1.sock", State::Running)), 0);
    assert_eq!(b.in_state(State::Running).len(), 1);
    b.apply(Update::SetState("/s/pi-1.sock".to_string(), State::Idle), 0);
    assert_eq!(b.in_state(State::Running).len(), 0);
    assert_eq!(b.in_state(State::Idle).len(), 1);
}

#[test]
fn model_set_state_on_unknown_is_ignored() {
    let mut b = Board::default();
    b.apply(Update::SetState(
        "/s/ghost.sock".to_string(),
        State::Running,
    ), 0);
    assert!(b.selectable().is_empty());
}

#[test]
fn model_set_title_updates_label() {
    let mut b = Board::default();
    b.apply(Update::Upsert(agent("/s/pi-1.sock", State::Idle)), 0);
    b.apply(Update::SetTitle(
        "/s/pi-1.sock".to_string(),
        Some("renamed".into()),
    ), 0);
    assert_eq!(b.in_state(State::Idle)[0].title.as_deref(), Some("renamed"));
}

#[test]
fn model_gone_removes_agent() {
    let mut b = Board::default();
    b.apply(Update::Upsert(agent("/s/pi-1.sock", State::Running)), 0);
    b.apply(Update::Gone("/s/pi-1.sock".to_string()), 0);
    assert!(b.selectable().is_empty());
}

#[test]
fn model_dormant_shows_all_resumable_newest_first_excluding_live() {
    let mut b = Board::default();
    // A live session (its sessionId must suppress a dormant twin).
    b.apply(Update::Upsert(agent("live-1", State::Running)), 0);
    let entries = vec![
        dormant_record("old", "/p2", "2026-01-01T00:00:00Z"),
        dormant_record("new", "/p2", "2026-06-01T00:00:00Z"),
        // Same sessionId as the live agent -> not dormant.
        RegistryEntry {
            socket: None,
            ..dormant_record("live-1", "/p1", "2026-06-02T00:00:00Z")
        },
    ];
    b.sync_registry(&entries, &vec![]);
    let d = b.dormant();
    // Both /p2 records shown (no per-cwd dedup), newest first; live excluded.
    assert_eq!(d.len(), 2, "all resumable, live excluded");
    assert_eq!(d[0].session_id.as_deref(), Some("new"));
    assert_eq!(d[1].session_id.as_deref(), Some("old"));
    assert_eq!(d[0].origin, Origin::Dormant);
}

#[test]
fn model_dormant_ignores_live_socketed_and_nonresumable_records() {
    let mut b = Board::default();
    let entries = vec![
        // Still live: socket present.
        RegistryEntry {
            socket: Some("/p/.corral/pi-1.sock".to_string()),
            ..dormant_record("a", "/p", "t")
        },
        // Ephemeral: no resume command.
        RegistryEntry {
            resume_command: None,
            ..dormant_record("b", "/q", "t")
        },
    ];
    b.sync_registry(&entries, &vec![]);
    assert!(b.dormant().is_empty());
}

#[test]
fn model_crashed_socket_becomes_dormant() {
    let mut b = Board::default();
    let sock = "/p/.corral/pi-1.sock".to_string();
    // Record still names a socket (no clean shutdown), but it is dead.
    let entries = vec![RegistryEntry {
        socket: Some(sock.clone()),
        ..dormant_record("crashed", "/p", "t")
    }];
    // Not yet known dead -> treated as live/connecting, not dormant.
    b.sync_registry(&entries, &vec![]);
    assert!(
        b.dormant().is_empty(),
        "a set socket is live until proven dead"
    );
    // Once the watcher reports it dead, it surfaces as resumable.
    let dead = vec![sock];
    b.sync_registry(&entries, &dead);
    let d = b.dormant();
    assert_eq!(d.len(), 1);
    assert_eq!(d[0].session_id.as_deref(), Some("crashed"));
    assert_eq!(d[0].origin, Origin::Dormant);
}

#[test]
fn model_selectable_orders_by_attention_priority() {
    let mut b = Board::default();
    b.apply(Update::Upsert(agent("/s/pi-1.sock", State::Running)), 0);
    b.apply(Update::Upsert(agent("/s/pi-2.sock", State::Idle)), 0);
    b.apply(Update::Upsert(agent("/s/pi-3.sock", State::RequiresAction)), 0);
    b.sync_registry(&vec![dormant_record("z", "/p9", "t")], &vec![]);
    let sel = b.selectable();
    assert_eq!(sel[0].state, State::RequiresAction);
    assert_eq!(sel[1].state, State::Idle);
    assert_eq!(sel[2].state, State::Running);
    assert_eq!(sel[3].origin, Origin::Dormant);
}

#[test]
fn live_in_dir_filters_by_cwd() {
    let mut b = Board::default();
    let mut a1 = agent("/s/1.sock", State::Idle);
    a1.cwd = Some("/p".into());
    let mut a2 = agent("/s/2.sock", State::Idle);
    a2.cwd = Some("/q".into());
    b.apply(Update::Upsert(a1), 0);
    b.apply(Update::Upsert(a2), 0);
    let got = b.live_in_dir("/p");
    assert_eq!(got.len(), 1);
    assert_eq!(got[0].cwd.as_deref(), Some("/p"));
}

#[test]
fn the_terms_of_a_query_all_have_to_match() {
    let mut a = agent("/s/pi-1.sock", State::Idle);
    a.title = Some("Fix Größe".into());
    a.label = "OpenCode".into();
    assert!(a.matches_query("ocod fx"));
    assert!(a.matches_query("  FX\tOCOD  "), "in any order, case and spacing");
    assert!(!a.matches_query("ocod zzz"));
    assert!(!a.matches_query("zzz ocod"));
    assert!(a.matches_query("GRÖSSE") == a.matches_query("grösse"));
    assert!(a.matches_query("größ"));
    assert!(a.matches_query(" \n\t"), "a blank query matches everything");
}

#[test]
fn queries_of_any_script_are_joined_term_by_term() {
    let mut a = agent("/s/pi-1.sock", State::Idle);
    a.title = Some("ὈΔΥΣΣΕΎΣ Größe".into());
    for (p, q) in [("ὀδυσσεύς", "GRÖSS"), ("ὈΔΥΣΣΕΎΣ", "größe"), ("zzz", "größe"), ("ΣΣ", "idle")] {
        assert_eq!(
            a.matches_query(&format!("{p} {q}")),
            a.matches_query(p) && a.matches_query(q),
            "{p} {q}"
        );
    }
    assert!(a.matches_query("ὈΔΥΣΣΕΎΣ größe"));
}

#[test]
fn a_filter_keeps_the_order_of_a_column() {
    let mut b = Board::default();
    for (sock, cwd, title) in [
        ("/s/1", "/b", "xq one"),
        ("/s/2", "/a", "beta"),
        ("/s/3", "/a", "xq two"),
        ("/s/4", "/c", "al"),
    ] {
        let mut a = agent(sock, State::Idle);
        a.cwd = Some(cwd.into());
        a.title = Some(title.into());
        b.apply(Update::Upsert(a), 0);
    }
    let column = |b: &Board| -> Vec<String> {
        b.column(Column::Idle).iter().map(|a| a.socket_path.clone()).collect()
    };
    assert_eq!(column(&b), ["/s/2", "/s/3", "/s/1", "/s/4"]);
    b.set_filter("xq".into());
    assert_eq!(column(&b), ["/s/3", "/s/1"], "the busier directory first, as before");
    assert_eq!(b.in_state(State::Idle).len(), 4);
    b.set_filter("  ".into());
    assert_eq!(column(&b), ["/s/2", "/s/3", "/s/1", "/s/4"]);
}

#[test]
fn a_session_is_found_live_first() {
    let mut b = Board::default();
    b.sync_registry(&vec![dormant_record("s", "/w", "t")], &vec![]);
    assert_eq!(b.by_session("s").map(|a| a.origin), Some(Origin::Dormant));
    let mut a = agent("/s/pi-1.sock", State::Running);
    a.session_id = Some("s".into());
    b.apply(Update::Upsert(a), 0);
    assert_eq!(b.by_session("s").map(|a| a.origin), Some(Origin::Live));
    assert!(b.dormant_by_session("s").is_some());
    b.apply(Update::Gone("/s/pi-1.sock".into()), 0);
    assert_eq!(b.by_session("s").map(|a| a.origin), Some(Origin::Dormant));
    assert!(b.by_session("other").is_none());
}

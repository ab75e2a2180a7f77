//! What the board shows of agents and records.
use corral::discovery::RegistryEntry;
use corral::model::{Agent, Board, Origin, State, Update};

fn agent(path: &str, state: State) -> Agent {
    Agent {
        socket_path: path.to_string(),
        pid: 1,
        label: "pi".into(),
        session_id: Some(path.into()),
        title: None,
        cwd: None,
        state,
        origin: Origin::Live,
        spawn_command: None,
        resume_command: None,
        activity: None,
        gui: false,
        message_flag: None,
        hidden: false,
        model: None,
        state_since: 0,
        last_activity: 0,
    }
}

fn dormant_record(id: &str, cwd: &str, last_seen: &str) -> RegistryEntry {
    RegistryEntry {
        session_id: id.into(),
        cwd: Some(cwd.into()),
        title: Some(id.into()),
        socket: None,
        pid: None,
        pid_namespace: None,
        spawn_command: Some(vec!["pi".into()]),
        resume_command: Some(vec!["pi".into(), "--session".into(), format!("/s/{id}.jsonl")]),
        label: Some("pi".into()),
        last_seen: Some(last_seen.into()),
        gui: false,
        message_flag: None,
        hidden: false,
        description: None,
        model: None,
        entries: None,
        context_percent: None,
        context_age: None,
    }
}

#[test]
fn state_wire_mapping() {
    assert_eq!(State::from_wire("running"), Some(State::Running));
    assert_eq!(State::from_wire("idle"), Some(State::Idle));
    assert_eq!(
        State::from_wire("requires_action"),
        Some(State::RequiresAction)
    );
    assert_eq!(State::from_wire("bogus"), None);
}

#[test]
fn upsert_then_set_state() {
    let mut b = Board::default();
    b.apply(Update::Upsert(agent("/s/pi-1.sock", State::Running)), 0);
    assert_eq!(b.in_state(State::Running).len(), 1);
    b.apply(Update::SetState("/s/pi-1.sock".to_string(), State::Idle), 0);
    assert_eq!(b.in_state(State::Running).len(), 0);
    assert_eq!(b.in_state(State::Idle).len(), 1);
}

#[test]
fn set_state_on_unknown_is_ignored() {
    let mut b = Board::default();
    b.apply(Update::SetState(
        "/s/ghost.sock".to_string(),
        State::Running,
    ), 0);
    assert!(b.selectable().is_empty());
}

#[test]
fn set_title_updates_label() {
    let mut b = Board::default();
    b.apply(Update::Upsert(agent("/s/pi-1.sock", State::Idle)), 0);
    b.apply(Update::SetTitle(
        "/s/pi-1.sock".to_string(),
        Some("renamed".into()),
    ), 0);
    assert_eq!(b.in_state(State::Idle)[0].title.as_deref(), Some("renamed"));
}

#[test]
fn gone_removes_agent() {
    let mut b = Board::default();
    b.apply(Update::Upsert(agent("/s/pi-1.sock", State::Running)), 0);
    b.apply(Update::Gone("/s/pi-1.sock".to_string()), 0);
    assert!(b.selectable().is_empty());
}

#[test]
fn dormant_shows_all_resumable_newest_first_excluding_live() {
    let mut b = Board::default();
    // A live session (its sessionId must suppress a dormant twin).
    b.apply(Update::Upsert(agent("live-1", State::Running)), 0);
    let entries = vec![
        dormant_record("old", "/p2", "2026-01-01T00:00:00Z"),
        dormant_record("new", "/p2", "2026-06-01T00:00:00Z"),
        // Same sessionId as the live agent -> not dormant.
        RegistryEntry {
            socket: None,
            ..dormant_record("live-1", "/p1", "2026-06-02T00:00:00Z")
        },
    ];
    b.sync_registry(&entries, &vec![]);
    let d = b.dormant();
    // Both /p2 records shown (no per-cwd dedup), newest first; live excluded.
    assert_eq!(d.len(), 2, "all resumable, live excluded");
    assert_eq!(d[0].session_id.as_deref(), Some("new"));
    assert_eq!(d[1].session_id.as_deref(), Some("old"));
    assert_eq!(d[0].origin, Origin::Dormant);
}

#[test]
fn dormant_ignores_live_socketed_and_nonresumable_records() {
    let mut b = Board::default();
    let entries = vec![
        // Still live: socket present.
        RegistryEntry {
            socket: Some("/p/.corral/pi-1.sock".to_string()),
            ..dormant_record("a", "/p", "t")
        },
        // Ephemeral: no resume.
        RegistryEntry {
            resume_command: None,
            ..dormant_record("b", "/q", "t")
        },
    ];
    b.sync_registry(&entries, &vec![]);
    assert!(b.dormant().is_empty());
}

#[test]
fn crashed_socket_becomes_dormant() {
    let mut b = Board::default();
    let sock = "/p/.corral/pi-1.sock".to_string();
    // Record still names a socket (no clean shutdown), but it is dead.
    let entries = vec![RegistryEntry {
        socket: Some(sock.clone()),
        ..dormant_record("crashed", "/p", "t")
    }];
    // Not yet known dead -> treated as live/connecting, not dormant.
    b.sync_registry(&entries, &vec![]);
    assert!(
        b.dormant().is_empty(),
        "a set socket is live until proven dead"
    );
    // Once the watcher reports it dead, it surfaces as resumable.
    let dead = vec![sock];
    b.sync_registry(&entries, &dead);
    let d = b.dormant();
    assert_eq!(d.len(), 1);
    assert_eq!(d[0].session_id.as_deref(), Some("crashed"));
    assert_eq!(d[0].origin, Origin::Dormant);
}

#[test]
fn selectable_orders_by_attention_priority() {
    let mut b = Board::default();
    b.apply(Update::Upsert(agent("/s/pi-1.sock", State::Running)), 0);
    b.apply(Update::Upsert(agent("/s/pi-2.sock", State::Idle)), 0);
    b.apply(Update::Upsert(agent("/s/pi-3.sock", State::RequiresAction)), 0);
    b.sync_registry(&vec![dormant_record("z", "/p9", "t")], &vec![]);
    let sel = b.selectable();
    assert_eq!(sel[0].state, State::RequiresAction);
    assert_eq!(sel[1].state, State::Idle);
    assert_eq!(sel[2].state, State::Running);
    assert_eq!(sel[3].origin, Origin::Dormant);
}

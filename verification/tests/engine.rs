//! The engine behind the board.
use corral::discovery::{parse_registry_json, RegistryEntry};
use corral::engine::{age_label, elapsed, Engine, SCAN_INTERVAL};
use corral::model::{Agent, Origin, State, Update};

const S: u128 = 1_000_000_000;

#[test]
fn age_label_scales_units() {
    assert_eq!(age_label(8), "8s");
    assert_eq!(age_label(5 * 60), "5m");
    assert_eq!(age_label(2 * 3600), "2h");
    assert_eq!(age_label(3 * 86400), "3d");
}

#[test]
fn empty_registry_yields_empty_board() {
    let mut e = Engine::new();
    let found = e.tick(Some((&vec![], &vec![])), vec![], 0);
    assert!(found.is_empty());
    assert_eq!(e.board().column_counts().iter().sum::<usize>(), 0);
}

fn live(id: &str) -> RegistryEntry {
    let mut r = parse_registry_json(&format!(
        r#"{{"sessionId":"{id}","cwd":"/p","label":"pi","pid":7,"resumeCommand":["pi"]}}"#
    ))
    .unwrap();
    r.socket = Some(format!("/p/.corral/{id}.sock"));
    r
}

fn agent(id: &str) -> Agent {
    Agent {
        socket_path: format!("/p/.corral/{id}.sock"),
        pid: 7,
        label: "pi".into(),
        session_id: Some(id.into()),
        title: None,
        cwd: Some("/p".into()),
        state: State::Idle,
        origin: Origin::Live,
        spawn_command: None,
        resume_command: None,
        activity: None,
        gui: false,
        message_flag: None,
        hidden: false,
        model: None,
        state_since: 0,
        last_activity: 0,
    }
}

#[test]
fn a_socket_is_watched_once_and_again_after_it_is_gone() {
    let mut e = Engine::new();
    let entries = vec![live("s1")];
    let ages = vec![Some(90)];
    let first = e.tick(Some((&entries, &ages)), vec![], 0);
    assert_eq!(first.len(), 1);
    assert_eq!(first[0].path, "/p/.corral/s1.sock");
    assert!(e.tick(Some((&entries, &ages)), vec![], S).is_empty());
    e.tick(None, vec![Update::Upsert(agent("s1"))], 2 * S);
    assert_eq!(e.board().column_counts(), [0, 1, 0, 0]);
    e.tick(None, vec![Update::Gone("/p/.corral/s1.sock".into())], 3 * S);
    // Its record still names the socket: it comes back as dormant, and a new
    // socket there is watched again.
    let again = e.tick(Some((&entries, &ages)), vec![], 4 * S);
    assert_eq!(e.board().column_counts(), [0, 0, 0, 1]);
    assert_eq!(again.len(), 1);
    assert_eq!(e.dormant_ages(), &vec![("s1".to_string(), "1m".to_string())]);
}

#[test]
fn a_scan_is_due_on_change_and_on_time() {
    let mut e = Engine::new();
    assert!(e.due(false, 0));
    e.rescan(&vec![], &vec![], 5 * S);
    assert!(!e.due(false, 5 * S + SCAN_INTERVAL - 1));
    assert!(e.due(false, 5 * S + SCAN_INTERVAL));
    assert!(e.due(true, 5 * S));
}

#[test]
fn ages_are_counted_from_the_last_change() {
    let mut e = Engine::new();
    e.tell(Update::Upsert(agent("s1")), S);
    e.tell(Update::SetState("/p/.corral/s1.sock".into(), State::Running), 10 * S);
    assert_eq!(elapsed(10 * S, 70 * S), 60);
    assert_eq!(
        e.in_state_ages(70 * S),
        [("/p/.corral/s1.sock".to_string(), "1m".to_string())]
    );
    e.drain(vec![Update::SetActivity("/p/.corral/s1.sock".into(), "edit".into())], 65 * S);
    assert_eq!(
        e.quiet_ages(70 * S),
        [("/p/.corral/s1.sock".to_string(), "5s".to_string())]
    );
    e.set_filter("zzz".to_string());
    assert_eq!(e.board().column_counts(), [0, 0, 0, 0]);
}

//! Routing messages from the board.
use corral::board::outbox::{is_whitelisted, parse_message, whitelist_add, Message};
use corral::board::router::{finish, Delivery, Router};
use corral::discovery::{parse_registry_json, RegistryEntry};
use corral::model::{Agent, Board, Origin, State, Update};

fn dir_msg(id: &str, from: &str, target: &str) -> Message {
    parse_message(&format!(
        r#"{{"id":"{id}","fromCwd":"{from}","targetDir":"{target}","message":"hi"}}"#
    ))
    .unwrap()
}

fn session_msg(id: &str, session: &str) -> Message {
    parse_message(&format!(
        r#"{{"id":"{id}","fromCwd":"/a","targetSession":"{session}","message":"hi"}}"#
    ))
    .unwrap()
}

fn granted() -> String {
    whitelist_add("/a", "/b")
}

fn spawns(v: &[Delivery]) -> usize {
    v.iter().filter(|d| matches!(d, Delivery::Spawn { .. })).count()
}

fn record(socket: Option<&str>) -> RegistryEntry {
    let mut r = parse_registry_json(r#"{"sessionId":"sid-7","cwd":"/b","label":"pi"}"#).unwrap();
    r.resume_command = Some(vec!["pi".into(), "--session".into(), "/s/sid-7.jsonl".into()]);
    r.socket = socket.map(String::from);
    r
}

#[test]
fn unauthorized_message_becomes_pending_without_spawning() {
    let mut r = Router::new();
    r.enqueue(dir_msg("1", "/a", "/b"));
    let out = r.poll(&Board::default(), None);
    assert!(out.is_empty());
    assert_eq!(r.pending().map(|m| m.id.as_str()), Some("1"));
    assert_eq!(spawns(&out), 0, "no delivery before approval");
}

#[test]
fn whitelisted_message_with_no_agent_spawns_with_message() {
    let mut r = Router::new();
    r.enqueue(dir_msg("1", "/a", "/b"));
    let out = r.poll(&Board::default(), Some(&granted()));
    assert!(r.pending().is_none(), "whitelisted needs no decision");
    assert_eq!(spawns(&out), 1, "spawned an agent in the target");
    match &out[0] {
        Delivery::Spawn { dir, text, .. } => {
            assert_eq!(dir, "/b");
            assert_eq!(
                text, "[from agent in /a] hi",
                "the provenance-tagged message is the new session's first prompt"
            );
        }
        _ => panic!("not a spawn"),
    }
    assert_eq!(finish(&out[0], &Ok(())), "routed to /b (spawned)");
    assert_eq!(finish(&out[0], &Err("no".into())), "route spawn: no");
}

#[test]
fn allow_always_persists_authorizes_and_delivers() {
    let mut r = Router::new();
    r.enqueue(dir_msg("1", "/a", "/b"));
    r.poll(&Board::default(), None); // -> pending
    let whitelist = r.allow_always().unwrap();
    assert!(is_whitelisted(Some(&whitelist), "/a", "/b"));
    let out = r.poll(&Board::default(), Some(&whitelist)); // re-queued -> delivered
    assert_eq!(spawns(&out), 1);
    assert!(r.poll(&Board::default(), Some(&whitelist)).is_empty());
}

#[test]
fn a_pair_with_the_separator_in_a_path_is_listed_and_delivered() {
    let mut r = Router::new();
    r.enqueue(dir_msg("1", "/a", "/b -> /c"));
    assert!(r.poll(&Board::default(), None).is_empty());
    let whitelist = r.allow_always().unwrap();
    assert_eq!(whitelist, "/a -> /b -> /c\n");
    let out = r.poll(&Board::default(), None);
    assert!(matches!(&out[0], Delivery::Spawn { dir, .. } if dir == "/b -> /c"));
    // The pair is listed from now on.
    r.enqueue(dir_msg("2", "/a", "/b -> /c"));
    assert_eq!(spawns(&r.poll(&Board::default(), Some(&whitelist))), 1);
    assert!(r.pending().is_none());
    assert_eq!(r.allow_always(), None, "nothing waits");
}

#[test]
fn an_approval_covers_one_message() {
    let mut r = Router::new();
    r.enqueue(dir_msg("1", "/a", "/b"));
    assert!(r.poll(&Board::default(), None).is_empty());
    r.allow_once();
    assert_eq!(spawns(&r.poll(&Board::default(), None)), 1);
    r.enqueue(dir_msg("1", "/x", "/c"));
    assert!(r.poll(&Board::default(), None).is_empty(), "another pair is asked for");
    assert_eq!(r.pending().map(|m| m.from_cwd.as_str()), Some("/x"));
}

#[test]
fn allowed_once_is_delivered_first() {
    let mut r = Router::new();
    r.enqueue(dir_msg("1", "/x", "/y"));
    r.enqueue(dir_msg("2", "/a", "/b"));
    assert!(r.poll(&Board::default(), Some(&granted())).is_empty());
    r.allow_once();
    let out = r.poll(&Board::default(), Some(&granted()));
    assert_eq!(spawns(&out), 2);
    assert!(matches!(&out[0], Delivery::Spawn { dir, .. } if dir == "/y"));
}

#[test]
fn deny_drops_the_message() {
    let mut r = Router::new();
    r.enqueue(dir_msg("1", "/a", "/b"));
    r.poll(&Board::default(), None); // -> pending
    r.deny();
    assert!(r.pending().is_none());
    let out = r.poll(&Board::default(), None);
    assert_eq!(spawns(&out), 0, "denied -> never delivered");
}

#[test]
fn known_but_undiscovered_session_is_kept_not_dropped() {
    // Right after corral starts, watchers have not announced, so a
    // currently-live session is neither on the live board nor dormant (its
    // record still names a socket). A session-addressed message must wait
    // for the watcher, not be dropped as "unknown target".
    let mut board = Board::default();
    board.sync_registry(&vec![record(Some("/b/.corral/pi-1.sock"))], &vec![]);
    let mut r = Router::new();
    r.enqueue(session_msg("1", "sid-7"));
    assert!(r.poll(&board, Some(&granted())).is_empty(), "deferred, not delivered");
    assert!(r.pending().is_none(), "whitelisted: no operator prompt");
    // Still queued for a later poll once the watcher announces.
    assert!(r.poll(&board, Some(&granted())).is_empty());
    board.apply(Update::Upsert(live("/b/.corral/pi-1.sock")), 0);
    assert_eq!(r.poll(&board, Some(&granted())).len(), 1);
}

fn live(socket: &str) -> Agent {
    Agent {
        socket_path: socket.into(),
        pid: 1,
        label: "pi".into(),
        session_id: Some("sid-7".into()),
        title: None,
        cwd: Some("/b".into()),
        state: State::Idle,
        origin: Origin::Live,
        spawn_command: None,
        resume_command: None,
        activity: None,
        gui: false,
        message_flag: None,
        hidden: false,
        model: None,
        state_since: 0,
        last_activity: 0,
    }
}

#[test]
fn delivers_to_a_live_session_by_id() {
    let mut board = Board::default();
    board.apply(Update::Upsert(live("/s/pi-1.sock")), 0);
    let mut r = Router::new();
    r.enqueue(session_msg("1", "sid-7"));
    let out = r.poll(&board, Some(&granted()));
    assert_eq!(spawns(&out), 0, "live session needs no spawn");
    match &out[0] {
        Delivery::Send { socket, text, .. } => {
            assert_eq!(socket, "/s/pi-1.sock");
            assert_eq!(text, "[from agent in /a] hi");
        }
        _ => panic!("not sent"),
    }
    assert_eq!(finish(&out[0], &Ok(())), "routed to session sid-7");
    assert_eq!(finish(&out[0], &Err("no".into())), "route send: no");
}

#[test]
fn a_dormant_session_is_resumed_and_an_unknown_one_is_reported() {
    let mut board = Board::default();
    board.sync_registry(&vec![record(None)], &vec![]);
    let mut r = Router::new();
    r.enqueue(session_msg("1", "sid-7"));
    r.enqueue(session_msg("2", "ghost"));
    let out = r.poll(&board, Some(&granted()));
    assert_eq!(out.len(), 2);
    assert!(matches!(&out[0], Delivery::Resume { cwd, command, .. }
        if cwd == "/b" && command[1] == "--session"));
    assert_eq!(finish(&out[0], &Ok(())), "routed to session sid-7 (resumed)");
    assert_eq!(finish(&out[0], &Err("no".into())), "route resume: no");
    assert_eq!(finish(&out[1], &Ok(())), "route: unknown target session");
}

#[test]
fn force_new_starts_an_agent_beside_a_live_one() {
    let mut board = Board::default();
    board.apply(Update::Upsert(live("/s/pi-1.sock")), 0);
    let mut r = Router::new();
    r.enqueue(dir_msg("1", "/a", "/b"));
    let mut forced = dir_msg("2", "/a", "/b");
    forced.force_new = true;
    r.enqueue(forced);
    let out = r.poll(&board, Some(&granted()));
    assert!(matches!(&out[0], Delivery::Send { .. }));
    assert!(matches!(&out[1], Delivery::Spawn { .. }));
}

#[test]
fn a_pass_stops_at_the_first_message_to_decide_on() {
    let mut r = Router::new();
    r.enqueue(dir_msg("1", "/a", "/b"));
    r.enqueue(dir_msg("2", "/x", "/y"));
    r.enqueue(dir_msg("3", "/a", "/b"));
    let board = Board::default();
    let whitelist = granted();
    assert_eq!(spawns(&r.poll(&board, Some(&whitelist))), 1, "the one before it");
    assert_eq!(r.pending().map(|m| m.id.as_str()), Some("2"));
    assert!(r.poll(&board, Some(&whitelist)).is_empty(), "nothing while it waits");
    r.deny();
    assert_eq!(spawns(&r.poll(&board, Some(&whitelist))), 1, "the one behind it");
    assert!(r.pending().is_none());
}

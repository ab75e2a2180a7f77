//! What an agent's socket tells.
use corral::discovery::SocketEntry;
use corral::json::parse;
use corral::model::{Agent, Origin, State, Update};
use corral::watch::{
    parse_config_model, parse_session_list, parse_state_notification, parse_title_notification,
    parse_tool_call, Watcher,
};

fn entry() -> SocketEntry {
    SocketEntry {
        path: "/p/.corral/pi-1.sock".into(),
        label: "pi".into(),
        pid: Some(1),
        pid_namespace: None,
    }
}

fn upserted(lines: &[&str]) -> Agent {
    let mut w = Watcher::new(entry());
    for l in lines {
        for u in w.hear(l, 5) {
            if let Update::Upsert(a) = u {
                return a;
            }
        }
    }
    panic!("no agent was announced");
}

const LIST: &str = r#"{"jsonrpc":"2.0","id":1,"result":{"sessions":[{"sessionId":"s","title":"t","cwd":"/tmp"}]}}"#;

#[test]
fn watch_parses_state_notification() {
    let running = r#"{"jsonrpc":"2.0","method":"session/update","params":{"sessionId":"s","update":{"sessionUpdate":"state_update","state":"running"}}}"#;
    assert_eq!(parse_state_notification(running), Some(State::Running));
    let idle = r#"{"jsonrpc":"2.0","method":"session/update","params":{"sessionId":"s","update":{"sessionUpdate":"state_update","state":"idle"}}}"#;
    assert_eq!(parse_state_notification(idle), Some(State::Idle));
    let blocked = r#"{"jsonrpc":"2.0","method":"session/update","params":{"sessionId":"s","update":{"sessionUpdate":"state_update","state":"requires_action"}}}"#;
    assert_eq!(
        parse_state_notification(blocked),
        Some(State::RequiresAction)
    );
}

#[test]
fn watch_ignores_other_notifications() {
    let chunk = r#"{"jsonrpc":"2.0","method":"session/update","params":{"update":{"sessionUpdate":"agent_message_chunk","content":{"type":"text","text":"hi"}}}}"#;
    assert_eq!(parse_state_notification(chunk), None);
    assert_eq!(parse_state_notification("not json"), None);
    let reply = r#"{"jsonrpc":"2.0","id":1,"result":{}}"#;
    assert_eq!(parse_state_notification(reply), None);
}

#[test]
fn parses_title_notification() {
    let renamed = r#"{"jsonrpc":"2.0","method":"session/update","params":{"sessionId":"s","update":{"sessionUpdate":"session_info_update","title":"fix bug"}}}"#;
    assert_eq!(
        parse_title_notification(renamed),
        Some(Some("fix bug".to_string()))
    );
    let cleared = r#"{"jsonrpc":"2.0","method":"session/update","params":{"sessionId":"s","update":{"sessionUpdate":"session_info_update","title":null}}}"#;
    assert_eq!(parse_title_notification(cleared), Some(None));
    let state = r#"{"jsonrpc":"2.0","method":"session/update","params":{"update":{"sessionUpdate":"state_update","state":"idle"}}}"#;
    assert_eq!(parse_title_notification(state), None);
}

#[test]
fn parses_tool_call_activity() {
    let edit = r#"{"jsonrpc":"2.0","method":"session/update","params":{"update":{"sessionUpdate":"tool_call","toolCallId":"1","title":"edit","status":"in_progress","rawInput":{"path":"/home/u/p/src/model.rs"}}}}"#;
    assert_eq!(parse_tool_call(edit).as_deref(), Some("edit model.rs"));
    let bash = r#"{"jsonrpc":"2.0","method":"session/update","params":{"update":{"sessionUpdate":"tool_call","title":"bash","rawInput":{"command":"cargo test --all"}}}}"#;
    assert_eq!(
        parse_tool_call(bash).as_deref(),
        Some("bash cargo test --all")
    );
    // A blocked agent surfaces its question text.
    let q = r#"{"jsonrpc":"2.0","method":"session/update","params":{"update":{"sessionUpdate":"tool_call","title":"question","rawInput":{"question":"which db?"}}}}"#;
    assert_eq!(parse_tool_call(q).as_deref(), Some("question which db?"));
    // No known arg: just the tool name.
    let noarg = r#"{"jsonrpc":"2.0","method":"session/update","params":{"update":{"sessionUpdate":"tool_call","title":"think","rawInput":{}}}}"#;
    assert_eq!(parse_tool_call(noarg).as_deref(), Some("think"));
    // Not a tool_call.
    let state = r#"{"jsonrpc":"2.0","method":"session/update","params":{"update":{"sessionUpdate":"state_update","state":"idle"}}}"#;
    assert_eq!(parse_tool_call(state), None);
}

#[test]
fn parses_config_model() {
    let line = r#"{"jsonrpc":"2.0","method":"session/update","params":{"sessionId":"s","update":{"sessionUpdate":"config_options_update","configOptions":[{"id":"model","name":"Model","category":"model","type":"select","currentValue":"acme/opus-4"}]}}}"#;
    assert_eq!(
        parse_config_model(line).as_deref(),
        Some("acme/opus-4")
    );
    // No model-category option present -> None.
    let other = r#"{"jsonrpc":"2.0","method":"session/update","params":{"update":{"sessionUpdate":"config_options_update","configOptions":[{"id":"mode","category":"mode","currentValue":"ask"}]}}}"#;
    assert_eq!(parse_config_model(other), None);
    // Not a config_options_update.
    let state = r#"{"jsonrpc":"2.0","method":"session/update","params":{"update":{"sessionUpdate":"state_update","state":"idle"}}}"#;
    assert_eq!(parse_config_model(state), None);
    assert_eq!(parse_config_model("not json"), None);
}

#[test]
fn session_list_seeds_fields() {
    let msg = parse(r#"{
        "id": 1,
        "result": {"sessions": [{"sessionId": "abc", "title": "fix bug", "cwd": "/tmp/p"}]}
    }"#).unwrap();
    let (sid, title, cwd) = parse_session_list(&msg);
    assert_eq!(sid.as_deref(), Some("abc"));
    assert_eq!(title.as_deref(), Some("fix bug"));
    assert_eq!(cwd.as_deref(), Some("/tmp/p"));
}

#[test]
fn preseed_model_lands_on_upsert() {
    // Model config seed BEFORE the session/list reply (the real order).
    let upsert = upserted(&[
        r#"{"jsonrpc":"2.0","method":"session/update","params":{"update":{"sessionUpdate":"config_options_update","configOptions":[{"id":"model","category":"model","currentValue":"acme/opus-4"}]}}}"#,
        LIST,
    ]);
    assert_eq!(upsert.model.as_deref(), Some("acme/opus-4"));
}

#[test]
fn preseed_state_lands_on_upsert() {
    // Seed state first, then the session/list reply (id 1) — the real order.
    let upsert = upserted(&[
        r#"{"jsonrpc":"2.0","method":"session/update","params":{"update":{"sessionUpdate":"state_update","state":"running"}}}"#,
        LIST,
    ]);
    assert_eq!(upsert.state, State::Running);
    assert_eq!(upsert.origin, Origin::Live);
    assert_eq!((upsert.pid, upsert.label.as_str()), (1, "pi"));
    assert_eq!(upsert.title.as_deref(), Some("t"));
    assert_eq!((upsert.state_since, upsert.last_activity), (5, 5));
}

#[test]
fn an_agent_is_announced_once_and_reports_afterwards() {
    let mut w = Watcher::new(entry());
    assert_eq!(w.hear(LIST, 0).len(), 1);
    let again = w.hear(LIST, 1);
    assert!(!again.iter().any(|u| matches!(u, Update::Upsert(_))));
    let idle = r#"{"jsonrpc":"2.0","method":"session/update","params":{"update":{"sessionUpdate":"state_update","state":"idle"}}}"#;
    assert_eq!(
        w.hear(idle, 2),
        [Update::SetState("/p/.corral/pi-1.sock".into(), State::Idle)]
    );
    assert_eq!(w.hear("not json", 3), []);
    assert_eq!(w.gone(), Update::Gone("/p/.corral/pi-1.sock".into()));
}

//! Lines on the wire: prompts, histories, documents and places.
use corral::history::{
    fetch_request, history_path, history_text, session_name, Fetch, HistoryError, Received, TIMEOUT,
};
use corral::json::{parse, Json, ObjectBuilder};
use corral::model::{Agent, Origin, State};
use corral::paths::{corral_path, Env};
use corral::prompt::{cancel_line, drain_grace, prompt_line, Chunk, Drain, DRAIN_GRACE};
use corral::rpc::{initialize_line, session_list_line};

#[test]
fn prompt_send_prompt_writes_session_prompt_line() {
    let line = prompt_line("hello there");
    assert!(line.ends_with('\n') && line.matches('\n').count() == 1);
    let v = parse(&line).unwrap();
    assert_eq!(v.str_at("method").as_deref(), Some("session/prompt"));
    let prompt = v.get("params").unwrap().get("prompt").unwrap().as_array().unwrap();
    assert_eq!(prompt[0].str_at("text").as_deref(), Some("hello there"));
}

#[test]
fn a_prompt_stays_on_one_line() {
    let line = prompt_line("two\nlines \"quoted\" \u{1}");
    assert_eq!(line.matches('\n').count(), 1);
    let v = parse(&line).unwrap();
    let prompt = v.get("params").unwrap().get("prompt").unwrap().as_array().unwrap();
    assert_eq!(prompt[0].str_at("text").as_deref(), Some("two\nlines \"quoted\" \u{1}"));
}

#[test]
fn send_cancel_writes_session_cancel_line() {
    let v = parse(&cancel_line()).unwrap();
    assert_eq!(v.str_at("method").as_deref(), Some("session/cancel"));
    // A notification carries no id per ACP.
    assert!(v.get("id").is_none());
}

#[test]
fn send_prompt_stays_open_while_the_agent_finishes_its_seed() {
    // Chunks keep the sender reading until the grace is over.
    assert_eq!(drain_grace(10, 10, None), Drain::Read(DRAIN_GRACE));
    assert_eq!(drain_grace(10, 70, Some(Chunk::Bytes)), Drain::Read(DRAIN_GRACE - 60));
    assert_eq!(drain_grace(10, 10 + DRAIN_GRACE, Some(Chunk::Bytes)), Drain::Close);
    assert_eq!(drain_grace(10, 11, Some(Chunk::End)), Drain::Close);
    assert_eq!(drain_grace(10, 11, Some(Chunk::Fault)), Drain::Close);
}

fn line(s: &str) -> Received {
    Received::Line(s.to_string())
}

const USER: &str = r#"{"jsonrpc":"2.0","method":"session/update","params":{"update":{"sessionUpdate":"user_message_chunk","content":{"type":"text","text":"hi"}}}}"#;
const AGENT: &str = r#"{"jsonrpc":"2.0","method":"session/update","params":{"update":{"sessionUpdate":"agent_message_chunk","content":{"type":"text","text":"hello"}}}}"#;

#[test]
fn fetch_history_collects_notifications_then_stops_at_reply() {
    let mut f = Fetch::start(0);
    assert_eq!(f.take(line(r#"{"jsonrpc":"2.0","id":0,"result":{}}"#)), None);
    assert_eq!(f.take(line(USER)), None);
    assert_eq!(f.take(line(AGENT)), None);
    let entries = f.take(line(r#"{"jsonrpc":"2.0","id":1,"result":{}}"#)).unwrap().unwrap();
    assert_eq!(entries.len(), 2);
    assert_eq!(entries[0].str_at("sessionUpdate").as_deref(), Some("user_message_chunk"));
    assert_eq!(entries[1].str_at("sessionUpdate").as_deref(), Some("agent_message_chunk"));
}

#[test]
fn fetch_history_reports_unsupported_on_error_reply() {
    let mut f = Fetch::start(0);
    f.take(line(r#"{"jsonrpc":"2.0","id":0,"result":{}}"#));
    let err = f
        .take(line(r#"{"jsonrpc":"2.0","id":1,"error":{"code":-32601,"message":"method not supported by corral-cursor: session/load"}}"#))
        .unwrap()
        .unwrap_err();
    assert!(matches!(err, HistoryError::Unsupported));
}

#[test]
fn fetch_history_times_out_when_agent_never_replies() {
    let mut f = Fetch::start(7);
    assert_eq!(f.wait(7), Ok(TIMEOUT));
    assert!(matches!(f.wait(7 + TIMEOUT), Err(HistoryError::Timeout)));
    assert!(matches!(f.take(Received::TimedOut), Some(Err(HistoryError::Timeout))));
    assert!(matches!(Fetch::start(0).take(Received::Fault("x".into())), Some(Err(HistoryError::Io(_)))));
    assert_eq!(
        Fetch::start(0).take(Received::Closed),
        Some(Err(HistoryError::Io("unexpected end of file".into())))
    );
}

fn agent() -> Agent {
    Agent {
        socket_path: "/tmp/x.sock".into(),
        pid: 1,
        label: "pi".into(),
        session_id: Some("sess-1".into()),
        title: Some("fix bug".into()),
        cwd: Some("/tmp/proj".into()),
        state: State::Idle,
        origin: Origin::Live,
        spawn_command: None,
        resume_command: None,
        activity: None,
        gui: false,
        message_flag: None,
        hidden: false,
        model: None,
        state_since: 0,
        last_activity: 0,
    }
}

#[test]
fn write_and_open_writes_json_with_wrapper_fields() {
    let entries = vec![parse(
        r#"{"sessionUpdate":"agent_message_chunk","content":{"type":"text","text":"hi"}}"#,
    )
    .unwrap()];
    let v = parse(&history_text(&agent(), entries, 17)).unwrap();
    assert_eq!(v.str_at("sessionId").as_deref(), Some("sess-1"));
    let updates = v.get("updates").unwrap().as_array().unwrap();
    assert_eq!(updates[0].str_at("sessionUpdate").as_deref(), Some("agent_message_chunk"));
    assert!(v.get("capturedAt").is_some());
    assert_eq!(session_name(&agent()), "sess-1");
    assert!(history_path("/tmp", &agent(), 17).starts_with("/tmp/"));
    let request = fetch_request("sess-1", "/tmp/proj");
    assert!(request.contains("session/load") && request.contains("initialize"));
}

#[test]
fn requests_name_their_methods() {
    assert_eq!(
        parse(&initialize_line()).unwrap().str_at("method").as_deref(),
        Some("initialize")
    );
    assert_eq!(
        parse(&session_list_line()).unwrap().str_at("method").as_deref(),
        Some("session/list")
    );
}

#[test]
fn a_document_is_read_as_it_stands() {
    let v = parse(r#" {"a":[1,-2,2.5,true,null],"a2":"x\u0041","n":18446744073709551615} "#).unwrap();
    let a = v.get("a").unwrap().as_array().unwrap();
    assert_eq!(a[0].as_u64(), Some(1));
    assert_eq!(a[1].as_i64(), Some(-2));
    assert_eq!(a[1].as_u64(), None);
    assert_eq!(a[2].as_u64(), None);
    assert_eq!(a[3], Json::Bool(true));
    assert_eq!(a[4], Json::Null);
    assert_eq!(v.str_at("a2").as_deref(), Some("xA"));
    assert_eq!(v.u64_at("n"), Some(u64::MAX));
    assert_eq!(v.i64_at("n"), None);
    assert!(parse("{\"a\":1,}").is_none());
    assert!(parse("").is_none());
    let mut b = ObjectBuilder::new();
    b.put("k", Json::of_strs(&vec!["x".into()]));
    b.put("k", Json::of_str("y"));
    assert_eq!(b.build().str_at("k").as_deref(), Some("y"));
}

#[test]
fn places_follow_the_environment() {
    let env = Env {
        home: Some("/home/u"),
        input_dir: None,
        input_registry: None,
        state_dir: None,
        state_registry: None,
        audit_log: Some("/var/log/audit"),
        control_socket: None,
        whitelist: None,
        approved_commands: None,
    };
    assert_eq!(env.audit_log().as_deref(), Some("/var/log/audit"));
    let input = env.input_dir().unwrap();
    let state = env.state_dir().unwrap();
    assert!(input.starts_with("/home/u/") && state.starts_with("/home/u/") && input != state);
    assert!(env.input_registry_dir().unwrap().starts_with(&input));
    for sealed in [
        env.state_registry_dir(),
        env.whitelist_file(),
        env.approved_commands_file(),
    ] {
        assert!(!sealed.unwrap().starts_with(&input));
    }
    assert!(env.control_socket().is_some());
    assert_eq!(corral_path(None, None, "x"), None);
    assert_eq!(corral_path(Some("/o"), None, "x").as_deref(), Some("/o"));
}

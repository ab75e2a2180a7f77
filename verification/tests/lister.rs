//! Listing wrapped agents.
use corral::json::parse;
use corral::lister::{
    describe_agent, hello_line, in_table_order, render, scan, Found, Heard, Probe, Status, Step,
};

#[test]
fn describe_agent_with_info() {
    let resp = parse(r#"{
        "id": 0,
        "result": {"protocolVersion": 1, "agentInfo": {"name": "pi", "version": "0.80.3"}}
    }"#).unwrap();
    assert_eq!(describe_agent(&resp), "pi 0.80.3");
}

#[test]
fn describe_agent_without_info() {
    let resp = parse(r#"{"id": 0, "result": {"protocolVersion": 1}}"#).unwrap();
    assert_eq!(describe_agent(&resp), "(acp v1)");
}

const HELLO: &str =
    r#"{"jsonrpc":"2.0","id":0,"result":{"protocolVersion":1,"agentInfo":{"name":"fake","version":"1.0"}}}"#;

fn live(title: Option<&str>, cwd: Option<&str>) -> Status {
    Status::Live {
        agent: "fake 1.0".to_string(),
        title: title.map(String::from),
        cwd: cwd.map(String::from),
    }
}

#[test]
fn probe_live_agent() {
    let mut p = Probe::new();
    let ask = match p.hear(Heard::Line(HELLO.to_string())) {
        Step::Ask(line) => line,
        other => panic!("{other:?}"),
    };
    assert_eq!(parse(&ask).unwrap().str_at("method").as_deref(), Some("session/list"));
    let reply = r#"{"jsonrpc":"2.0","id":1,"result":{"sessions":[{"sessionId":"s1","title":"fix bug","cwd":"/tmp/p"}]}}"#;
    assert_eq!(
        p.hear(Heard::Line(reply.to_string())),
        Step::Done(live(Some("fix bug"), Some("/tmp/p")))
    );
}

#[test]
fn probe_live_agent_without_session_list() {
    let mut p = Probe::new();
    assert!(matches!(p.hear(Heard::Line(HELLO.to_string())), Step::Ask(_)));
    // Closed without answering session/list: no title.
    assert_eq!(p.hear(Heard::Ended), Step::Done(live(None, None)));
}

#[test]
fn probe_stale_socket() {
    assert_eq!(Probe::new().hear(Heard::Refused), Step::Done(Status::Stale));
}

#[test]
fn probe_busy_socket() {
    assert_eq!(Probe::new().hear(Heard::Ended), Step::Done(Status::Busy));
}

#[test]
fn the_hello_is_an_initialize_request() {
    let line = hello_line("1.2.3");
    assert!(line.ends_with('\n'));
    let v = parse(line.trim()).unwrap();
    assert_eq!(v.str_at("method").as_deref(), Some("initialize"));
    assert!(line.contains("1.2.3"));
}

#[test]
fn sockets_are_listed_by_label_and_pid() {
    let names: Vec<String> = ["b-2.sock", "notes.txt", "a-9.sock", "b-1.sock"]
        .iter()
        .map(|s| s.to_string())
        .collect();
    let found = scan("/run/acp", &names);
    let order: Vec<&str> = in_table_order(&found).iter().map(|f| f.path.as_str()).collect();
    assert_eq!(
        order,
        ["/run/acp/a-9.sock", "/run/acp/b-1.sock", "/run/acp/b-2.sock"]
    );
    let rows = vec![(
        Found { path: "/run/acp/a-9.sock".into(), label: "a".into(), pid: 9 },
        Status::Stale,
    )];
    let table = render(&rows).join("\n");
    assert!(table.contains("a") && table.contains("9") && table.contains("stale"));
}

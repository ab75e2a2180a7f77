//! Sockets and records as the board finds them.
use corral::discovery::{live_socket, parse_registry_json, parse_socket_filename, scan_registry};

#[test]
fn parses_simple_filename() {
    assert_eq!(
        parse_socket_filename("opencode-1234.sock"),
        Some(("opencode".to_string(), 1234))
    );
}

#[test]
fn label_may_contain_dashes() {
    assert_eq!(
        parse_socket_filename("opencode-agent-acp-99.sock"),
        Some(("opencode-agent-acp".to_string(), 99))
    );
}

#[test]
fn rejects_non_sockets_and_malformed_names() {
    assert_eq!(parse_socket_filename("readme.txt"), None);
    assert_eq!(parse_socket_filename("nopid.sock"), None);
    assert_eq!(parse_socket_filename("label-notanumber.sock"), None);
    assert_eq!(parse_socket_filename("-42.sock"), None);
}

#[test]
fn scan_missing_dir_is_empty() {
    assert!(scan_registry(&vec![]).is_empty());
}

#[test]
fn parses_live_registry_record() {
    let json = r#"{"sessionId":"abc","cwd":"/tmp/p","title":"fix bug",
        "socket":"/tmp/p/.corral/pi-42.sock","resume":"/s/abc.jsonl","lastSeen":"t"}"#;
    let e = parse_registry_json(json).unwrap();
    assert_eq!(e.session_id, "abc");
    assert_eq!(e.cwd.as_deref(), Some("/tmp/p"));
    let sock = live_socket(&e).unwrap();
    assert_eq!(sock.label, "pi");
    assert_eq!(sock.pid, Some(42));
    assert_eq!(sock.path, "/tmp/p/.corral/pi-42.sock");
}

#[test]
fn dormant_record_has_no_socket() {
    let e = parse_registry_json(r#"{"sessionId":"abc","socket":null}"#).unwrap();
    assert_eq!(e.socket, None);
    assert_eq!(live_socket(&e), None);
}

#[test]
fn rejects_record_without_session_id() {
    assert_eq!(parse_registry_json(r#"{"cwd":"/tmp"}"#), None);
    assert_eq!(parse_registry_json("not json"), None);
}

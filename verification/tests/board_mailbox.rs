//! Messages left in an outbox.
use corral::board::outbox::{
    is_whitelisted, parse_message, scan_outbox, whitelist_add, MailFile, Message,
};
use corral::daemon::mailbox::Target;

fn msg() -> Message {
    Message {
        id: "1".into(),
        from_cwd: "/a".into(),
        from_session: None,
        target: Target::Dir("/b".into()),
        message: "hi".into(),
        force_new: false,
    }
}

#[test]
fn parses_and_tags() {
    let json = r#"{"id":"1","fromCwd":"/a","targetDir":"/b","message":"hi"}"#;
    let m = parse_message(json).unwrap();
    assert_eq!(m, msg());
    assert_eq!(m.tagged(), "[from agent in /a] hi");
    assert!(!m.force_new);
}

#[test]
fn targets_a_session_with_reply_handle() {
    let json = r#"{"id":"1","fromCwd":"/a","fromSession":"sid-9",
        "targetSession":"sid-7","message":"hi"}"#;
    let m = parse_message(json).unwrap();
    assert_eq!(m.target, Target::Session("sid-7".into()));
    assert_eq!(m.target_label(), "session sid-7");
    // The reply handle (sender's session) rides in the provenance tag.
    assert_eq!(m.tagged(), "[from agent in /a (session sid-9)] hi");
}

#[test]
fn force_new_and_missing_fields() {
    let m = parse_message(
        r#"{"id":"1","fromCwd":"/a","targetDir":"/b","message":"hi","forceNew":true}"#,
    )
    .unwrap();
    assert!(m.force_new);
    // Missing both target forms -> no target -> reject.
    assert_eq!(
        parse_message(r#"{"id":"1","fromCwd":"/a","message":"hi"}"#),
        None
    );
    assert_eq!(parse_message(r#"{"id":"1"}"#), None);
    assert_eq!(parse_message("nope"), None);
}

#[test]
fn scan_outbox_reads_json_only() {
    let file = |path: &str, text: &str| MailFile {
        path: path.to_string(),
        text: Some(text.to_string()),
    };
    let got = scan_outbox(&vec![
        file("/o/m.json", r#"{"id":"1","fromCwd":"/a","targetDir":"/b","message":"hi"}"#),
        file("/o/note.txt", "ignore"),
    ]);
    assert_eq!(got.len(), 1);
    assert_eq!(got[0].1.id, "1");
    assert!(scan_outbox(&vec![]).is_empty());
}

#[test]
fn an_outbox_is_read_in_the_order_of_its_names() {
    let text = |id: &str| {
        Some(format!(r#"{{"id":"{id}","fromCwd":"/a","targetDir":"/b","message":"hi"}}"#))
    };
    let got = scan_outbox(&vec![
        MailFile { path: "/o/b.json".into(), text: text("b") },
        MailFile { path: "/o/c.json".into(), text: None },
        MailFile { path: "/o/a.json".into(), text: text("a") },
    ]);
    let ids: Vec<&str> = got.iter().map(|g| g.1.id.as_str()).collect();
    assert_eq!(ids, ["a", "b"]);
    assert_eq!(got[0].0, "/o/a.json");
}

#[test]
fn whitelist_roundtrip() {
    assert!(!is_whitelisted(None, "/a", "/b"));
    let file = whitelist_add("/a", "/b");
    assert!(is_whitelisted(Some(&file), "/a", "/b"));
    // A different pair is still not authorized.
    assert!(!is_whitelisted(Some(&file), "/a", "/c"));
}

//! What the control socket answers, and what it routes.
use corral::daemon::control::{handle, json_string, read_request, spawn_dir, Answer, Request, MAX_REQUEST};
use corral::daemon::mailbox::{whitelist_add, Kind};
use corral::discovery::{parse_registry_json, RegistryEntry};
use corral::json::parse;

fn dormant(sid: &str, cwd: &str) -> RegistryEntry {
    parse_registry_json(&format!(
        r#"{{"sessionId":"{sid}","cwd":"{cwd}","label":"pi"}}"#
    ))
    .unwrap()
}

/// A live record: a `socket` is set.
fn live(sid: &str, cwd: &str) -> RegistryEntry {
    parse_registry_json(&format!(
        r#"{{"sessionId":"{sid}","cwd":"{cwd}","label":"pi","socket":"{cwd}/.corral/pi-9.sock"}}"#
    ))
    .unwrap()
}

const FROM: &str = "/from";

fn submit(body: &str, canonical: Option<&str>, entries: Vec<RegistryEntry>, whitelist: Option<&str>) -> Answer {
    handle(FROM, body, canonical, &entries, whitelist)
}

fn routed(a: &Answer) -> Option<&str> {
    a.route.as_ref().map(|s| s.id.as_str())
}

/// Every refusal is `malformed` plus a reason naming what went wrong.
fn assert_malformed(ack: &str, expect: &str) {
    assert!(
        ack.starts_with(r#"{"status":"malformed","reason":"#),
        "expected a malformed ack with a reason, got: {ack}"
    );
    assert!(ack.contains(expect), "reason lacks {expect:?}: {ack}");
}

const STOP: &str = r#"{"op":"stop","id":"1","fromCwd":"/a","targetSession":"sid-7"}"#;
const MESSAGE: &str =
    r#"{"op":"message","id":"1","fromCwd":"/a","targetSession":"sid-7","message":"hi"}"#;

#[test]
fn stop_live_whitelisted_is_accepted_and_enqueued() {
    let wl = whitelist_add(FROM, "/w").unwrap();
    let a = submit(STOP, None, vec![live("sid-7", "/w")], Some(&wl));
    assert_eq!(a.line.trim(), r#"{"status":"accepted"}"#);
    let sub = a.route.unwrap();
    assert_eq!(sub.id, "1");
    assert!(matches!(sub.kind, Kind::Stop { .. }), "routed as a kill");
    // The sender is where the request came from, whatever it claims.
    assert_eq!(sub.from_cwd, FROM);
    assert_eq!(sub.target_cwd, "/w");
}

#[test]
fn stop_live_unlisted_needs_approval() {
    let a = submit(STOP, None, vec![live("sid-7", "/w")], None);
    assert_eq!(a.line.trim(), r#"{"status":"approval_needed"}"#);
    assert_eq!(routed(&a), Some("1"), "held for approval, still routed");
}

#[test]
fn stop_dormant_is_already_stopped_and_not_routed() {
    // A dormant record (no socket): nothing to kill.
    let a = submit(STOP, None, vec![dormant("sid-7", "/w")], None);
    assert_eq!(a.line.trim(), r#"{"status":"already_stopped"}"#);
    assert!(a.route.is_none(), "no-op success -> not enqueued");
}

#[test]
fn t2_forged_reply_handle_from_another_dir_is_refused() {
    // A sender in `from` claims a reply handle that the registry pins to a
    // different directory: provable forgery, so the message never routes.
    let wl = whitelist_add(FROM, "/target").unwrap();
    let a = submit(
        r#"{"op":"spawn","id":"1","fromCwd":"/a","fromSession":"sid-victim","cwd":"/target","task":"hi"}"#,
        Some("/target"),
        vec![dormant("sid-victim", "/victim")],
        Some(&wl),
    );
    assert_malformed(&a.line, "reply handle");
    assert!(a.route.is_none(), "a forged handle must not route");
}

#[test]
fn t2_unknown_reply_handle_still_routes() {
    // An id absent from the registry is not evidence of forgery: a fresh
    // record may not be curated yet, so a legitimate first message survives.
    let wl = whitelist_add(FROM, "/target").unwrap();
    let a = submit(
        r#"{"op":"spawn","id":"1","fromCwd":"/a","fromSession":"not-curated-yet","cwd":"/target","task":"hi"}"#,
        Some("/target"),
        vec![],
        Some(&wl),
    );
    assert_eq!(a.line.trim(), r#"{"status":"accepted"}"#);
    assert_eq!(routed(&a), Some("1"));
}

#[test]
fn stop_unknown_session_is_recipient_not_found() {
    let a = submit(
        r#"{"op":"stop","id":"1","fromCwd":"/a","targetSession":"ghost"}"#,
        None,
        vec![],
        None,
    );
    assert_eq!(a.line.trim(), r#"{"status":"recipient_not_found"}"#);
    assert!(a.route.is_none());
}

#[test]
fn control_accepted_session_is_acked_and_enqueued() {
    let wl = whitelist_add(FROM, "/w").unwrap();
    let a = submit(MESSAGE, None, vec![dormant("sid-7", "/w")], Some(&wl));
    assert_eq!(a.line.trim(), r#"{"status":"accepted"}"#);
    assert_eq!(routed(&a), Some("1"), "routable -> enqueued");
}

#[test]
fn control_unknown_session_is_recipient_not_found_and_not_enqueued() {
    let a = submit(MESSAGE, None, vec![], None);
    assert_eq!(a.line.trim(), r#"{"status":"recipient_not_found"}"#);
    assert!(a.route.is_none(), "rejected -> not enqueued");
}

#[test]
fn missing_directory_is_not_disclosed_to_an_unreachable_caller() {
    let body = r#"{"op":"spawn","id":"1","cwd":"/no/such/dir","task":"hi"}"#;
    let gone = submit(body, None, vec![], None);
    assert_eq!(gone.line.trim(), r#"{"status":"approval_needed"}"#);
    // Nowhere to spawn, so it is dropped rather than parked under an empty
    // target label.
    assert!(gone.route.is_none(), "unresolved target must not enqueue");
    // Whether the directory exists cannot be told from the answer.
    let there = submit(body, Some("/no/such/dir"), vec![], None);
    assert_eq!(there.line, gone.line);
}

#[test]
fn missing_directory_is_directory_not_known_for_a_reachable_caller() {
    let wl = whitelist_add(FROM, "/gone").unwrap();
    let a = submit(
        r#"{"op":"spawn","id":"1","cwd":"/gone","task":"hi"}"#,
        None,
        vec![],
        Some(&wl),
    );
    assert_eq!(a.line.trim(), r#"{"status":"directory_not_known"}"#);
}

#[test]
fn a_spawn_cwd_is_stamped_canonical_before_routing() {
    let body = r#"{"op":"spawn","id":"1","cwd":"/t/real/../real/","task":"hi"}"#;
    assert_eq!(spawn_dir(body).as_deref(), Some("/t/real/../real/"));
    let a = submit(body, Some("/t/real"), vec![], None);
    assert_eq!(a.line.trim(), r#"{"status":"approval_needed"}"#);
    let sub = a.route.unwrap();
    assert_eq!(sub.target_cwd, "/t/real");
    assert_eq!(sub.target_label(), "/t/real");
}

#[test]
fn resolvable_but_unlisted_needs_approval_and_still_enqueued() {
    let a = submit(
        r#"{"op":"spawn","id":"1","fromCwd":"/a","cwd":"/w","task":"hi"}"#,
        Some("/w"),
        vec![],
        None,
    );
    assert_eq!(a.line.trim(), r#"{"status":"approval_needed"}"#);
    assert_eq!(routed(&a), Some("1"), "approval_needed still routes (for approval)");
}

#[test]
fn list_query_exposes_whitelisted_dir_and_hides_unreachable_paths() {
    let wl = whitelist_add(FROM, "/t/reach").unwrap();
    let a = submit(
        r#"{"op":"list","fromCwd":"/caller"}"#,
        None,
        vec![dormant("visible-1", "/t/reach"), dormant("hidden-1", "/t/secret")],
        Some(&wl),
    );
    assert!(a.line.contains("\"status\":\"ok\""));
    // The whitelisted dir is fully exposed and addressable.
    assert!(a.line.contains("visible-1") && a.line.contains("/t/reach"));
    assert!(a.line.contains("hidden-1"), "sessionId is the addressable handle");
    assert!(!a.line.contains("/t/secret"), "never leak an unreachable cwd");
    assert!(parse(&a.line).is_some());
    assert!(a.route.is_none());
}

#[test]
fn an_oversized_request_line_is_refused_without_unbounded_buffering() {
    let line = "A".repeat(MAX_REQUEST as usize);
    match read_request(&line, MAX_REQUEST) {
        Request::Refuse(ack) => assert_malformed(&ack, ""),
        Request::Open(_) => panic!("an oversized line must not be opened"),
    }
    // One that ends in time is read.
    match read_request("{\"submit\":\"/w/.corral/outbox/m.json\"}\n", 40) {
        Request::Open(path) => assert_eq!(path, "/w/.corral/outbox/m.json"),
        Request::Refuse(ack) => panic!("{ack}"),
    }
}

#[test]
fn control_malformed_is_acked_without_enqueue() {
    let a = submit("not json", None, vec![], None);
    assert_malformed(&a.line, "valid corral request");
    assert!(a.route.is_none());
}

#[test]
fn unopenable_submission_is_acked_with_the_reason() {
    let e = corral::curation::SubmissionError::Unopenable;
    let ack = corral::daemon::control::reject(e.message());
    assert_malformed(&ack, "mount namespace corrald cannot see");
}

#[test]
fn a_reason_is_quoted() {
    assert_eq!(json_string("a\"b\\\n"), r#""a\"b\\ ""#);
}

//! What the operator is shown, and what they answer.
use corral::daemon::notify::{clip, detail_text, notification_body, parse_action};
use corral::daemon::router::ApprovalAction;

#[test]
fn clip_adds_ellipsis_when_too_long() {
    assert_eq!(clip("short", 140), "short");
    assert_eq!(clip("abcdef", 4), "abc…");
}

#[test]
fn notify_parses_action_names() {
    assert_eq!(parse_action("once\n"), Some(ApprovalAction::AllowOnce));
    assert_eq!(parse_action("always"), Some(ApprovalAction::AllowAlways));
    assert_eq!(parse_action(" deny "), Some(ApprovalAction::Deny));
    assert_eq!(parse_action(""), None);
    assert_eq!(parse_action("bogus"), None);
}

#[test]
fn a_notice_clips_the_message() {
    let long = "x".repeat(200);
    let body = notification_body("/home/a", "/home/b", &long);
    assert!(body.starts_with("a → b\nxxx") && body.ends_with('…'));
    assert_eq!(body.chars().count(), "a → b\n".chars().count() + 140);
    assert!(detail_text("/a", "/b", &long).contains(&long));
}

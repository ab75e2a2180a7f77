//! The answers to a notification.
use corral::daemon::notify::parse_action;
use corral::daemon::router::ApprovalAction;

#[test]
fn parses_action_names() {
    assert_eq!(parse_action("once\n"), Some(ApprovalAction::AllowOnce));
    assert_eq!(parse_action("always"), Some(ApprovalAction::AllowAlways));
    assert_eq!(parse_action(" deny "), Some(ApprovalAction::Deny));
    assert_eq!(parse_action(""), None);
    assert_eq!(parse_action("bogus"), None);
}

//! The tray, and what is announced to the operator.
use corral::approved_commands::Template;
use corral::daemon::announce::{decision_line, summarize, Announcer, RegistrationNews};
use corral::daemon::mailbox::{parse, Submission};
use corral::daemon::router::{ApprovalAction, Pending};
use corral::daemon::tray::{CorralTray, TrayChoice, TrayCommand, TrayItem};

fn labels(t: &CorralTray) -> Vec<String> {
    t.menu()
        .into_iter()
        .filter_map(|i| match i {
            TrayItem::Item { label, .. } => Some(label),
            TrayItem::Separator => None,
        })
        .collect()
}

fn sub(id: &str) -> Submission {
    let mut s = parse(&format!(
        r#"{{"op":"message","id":"{id}","fromCwd":"/w/a","targetSession":"sid","message":"hi"}}"#
    ))
    .unwrap();
    s.target_cwd = "/w/b".into();
    s
}

#[test]
fn a_calm_tray_offers_the_board() {
    let mut t = CorralTray::new();
    assert!(!t.attention());
    assert_eq!((t.title(), t.icon_name()), ("corral", "mail-read"));
    assert_eq!(labels(&t), ["No messages waiting", "Open board", "Quit corrald"]);
    assert_eq!(t.choose_item(TrayChoice::OpenBoard), Some(TrayCommand::OpenBoard));
    assert_eq!(t.decide(ApprovalAction::Deny), None);
}

#[test]
fn a_waiting_message_is_decided_once() {
    let mut t = CorralTray::new();
    t.set_pending(Some(("7".into(), "a → b".into())));
    assert!(t.attention());
    assert_eq!(t.icon_name(), "mail-unread-new");
    assert_eq!(
        labels(&t)[..5],
        ["Pending: a → b", "Allow once", "Allow always", "Deny", "Show details"]
    );
    assert_eq!(
        t.decide(ApprovalAction::AllowOnce),
        Some(TrayCommand::Decide("7".into(), ApprovalAction::AllowOnce))
    );
    assert_eq!(t.decide(ApprovalAction::AllowOnce), None);
}

#[test]
fn a_waiting_kind_is_registered_or_rejected() {
    let mut t = CorralTray::new();
    t.set_pending_registration(Some(("pi".into(), "spawn: pi".into())));
    assert!(labels(&t).contains(&"Register pi: spawn: pi".to_string()));
    assert_eq!(
        t.choose_item(TrayChoice::Register(true)),
        Some(TrayCommand::DecideRegistration("pi".into(), true))
    );
}

#[test]
fn a_submission_is_announced_once() {
    let mut a = Announcer::new();
    let pending = vec![Pending { sub: sub("1") }, Pending { sub: sub("2") }];
    let first = a.announce(&pending);
    assert_eq!(first.len(), 2);
    assert_eq!((first[0].from.as_str(), first[0].body.as_str()), ("a", "hi"));
    assert!(a.announce(&pending).is_empty());
    // One that has gone may be announced again.
    assert!(a.announce(&vec![]).is_empty());
    assert_eq!(a.announce(&pending).len(), 2);
}

#[test]
fn the_tray_is_told_of_changes_only() {
    let mut a = Announcer::new();
    let p = Pending { sub: sub("1") };
    assert_eq!(
        a.tray_head(Some(&p)),
        Some(Some(("1".to_string(), "a → b (session sid)".to_string())))
    );
    assert_eq!(a.tray_head(Some(&p)), None);
    assert_eq!(a.tray_head(None), Some(None));
    let kind = ("pi".to_string(), Template::default());
    assert!(matches!(a.registration_news(Some(&kind)), RegistrationNews::Show(l, _) if l == "pi"));
    assert_eq!(a.registration_news(Some(&kind)), RegistrationNews::Keep);
    assert_eq!(a.registration_news(None), RegistrationNews::Clear);
}

#[test]
fn decisions_are_written_down() {
    assert_eq!(
        decision_line(&sub("1"), ApprovalAction::AllowAlways),
        "message AllowAlways: /w/a -> /w/b (session sid)"
    );
    assert_eq!(summarize(&sub("1")), "a → b (session sid)");
}

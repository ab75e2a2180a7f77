//! The context menu's entries.
use corral::menu::MenuAction;

#[test]
fn entries_are_in_footer_order_dismiss_last() {
    assert_eq!(
        MenuAction::ALL,
        [
            MenuAction::Go,
            MenuAction::Message,
            MenuAction::Spawn,
            MenuAction::ToggleHidden,
            MenuAction::Dismiss,
        ]
    );
    assert_eq!(*MenuAction::ALL.last().unwrap(), MenuAction::Dismiss);
}

#[test]
fn every_entry_has_a_label() {
    for a in MenuAction::ALL {
        assert!(!a.label().is_empty());
    }
}

#[test]
fn the_menu_turns_round_and_back() {
    assert_eq!(MenuAction::Dismiss.turn(true), MenuAction::Go);
    assert_eq!(MenuAction::Go.turn(false), MenuAction::Dismiss);
    for a in MenuAction::ALL {
        assert_eq!(a.turn(true).turn(false), a);
        assert_eq!(MenuAction::ALL[a.index()], a);
    }
}

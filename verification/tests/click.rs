//! Single and double clicks.
use corral::click::{ClickKind, ClickTracker, DOUBLE_CLICK};

const MS: u128 = 1_000_000;

#[test]
fn same_card_within_threshold_goes() {
    let mut t = ClickTracker::new(400 * MS);
    let base = 7_000 * MS;
    assert_eq!(t.press(2, base), ClickKind::Select);
    assert_eq!(t.press(2, base + 200 * MS), ClickKind::Go);
}

#[test]
fn different_card_only_selects() {
    let mut t = ClickTracker::new(400 * MS);
    let base = 7_000 * MS;
    assert_eq!(t.press(2, base), ClickKind::Select);
    assert_eq!(
        t.press(3, base + 100 * MS),
        ClickKind::Select
    );
}

#[test]
fn over_threshold_only_selects() {
    let mut t = ClickTracker::new(400 * MS);
    let base = 7_000 * MS;
    assert_eq!(t.press(2, base), ClickKind::Select);
    assert_eq!(
        t.press(2, base + 500 * MS),
        ClickKind::Select
    );
}

#[test]
fn go_resets_so_triple_click_is_not_two_gos() {
    let mut t = ClickTracker::new(400 * MS);
    let base = 7_000 * MS;
    assert_eq!(t.press(2, base), ClickKind::Select);
    assert_eq!(t.press(2, base + 100 * MS), ClickKind::Go);
    // Third quick press starts a fresh single click, not another go.
    assert_eq!(
        t.press(2, base + 200 * MS),
        ClickKind::Select
    );
}

#[test]
fn the_threshold_itself_still_goes() {
    let mut t = ClickTracker::default();
    assert_eq!(DOUBLE_CLICK, 400 * MS);
    assert_eq!(t.press(0, 0), ClickKind::Select);
    assert_eq!(t.press(0, 400 * MS), ClickKind::Go);
    assert_eq!(t.press(0, 500 * MS), ClickKind::Select);
    assert_eq!(t.press(0, 900 * MS + 1), ClickKind::Select);
}

//! Telling a double click from single ones.
use vstd::prelude::*;

verus! {

/// The default window of a double click, in nanoseconds.
pub const DOUBLE_CLICK: u128 = 400000000;

/// What a left press means.
#[derive(Debug, Clone, Copy, PartialEq, Eq, Structural)]
pub enum ClickKind {
    /// Selects the card.
    Select,
    /// Goes to the card.
    Go,
}

/// Remembers the last press. Times are nanoseconds of a monotonic clock.
#[derive(Debug, Clone, Copy)]
pub struct ClickTracker {
    threshold: u128,
    last: Option<(usize, u128)>,
}

pub struct ClickView {
    pub threshold: u128,
    pub last: Option<(usize, u128)>,
}

impl View for ClickTracker {
    type V = ClickView;

    closed spec fn view(&self) -> ClickView {
        ClickView { threshold: self.threshold, last: self.last }
    }
}

/// How long ago a press was; one that lies ahead was just now.
pub open spec fn since(at: u128, now: u128) -> int {
    if now >= at {
        now - at
    } else {
        0
    }
}

/// A press is the second of a double click.
pub open spec fn is_double(c: ClickView, idx: usize, now: u128) -> bool {
    c.last matches Some(l) && l.0 == idx && since(l.1, now) <= c.threshold
}

/// What a press means, and what is remembered of it: a double click is
/// forgotten, so that a third press begins anew.
pub open spec fn pressed(c: ClickView, idx: usize, now: u128) -> (ClickView, ClickKind) {
    if is_double(c, idx, now) {
        (ClickView { last: None, ..c }, ClickKind::Go)
    } else {
        (ClickView { last: Some((idx, now)), ..c }, ClickKind::Select)
    }
}

impl Default for ClickTracker {
    fn default() -> (r: Self)
        ensures
            r@ == (ClickView { threshold: DOUBLE_CLICK, last: None }),
    {
        ClickTracker::new(DOUBLE_CLICK)
    }
}

impl ClickTracker {
    /// A tracker with a double-click window.
    pub fn new(threshold: u128) -> (r: Self)
        ensures
            r@ == (ClickView { threshold, last: None }),
    {
        ClickTracker { threshold, last: None }
    }

    /// Classifies a left press on card `idx`.
    pub fn press(&mut self, idx: usize, now: u128) -> (r: ClickKind)
        ensures
            (final(self)@, r) == pressed(old(self)@, idx, now),
    {
        let double = match self.last {
            Some(l) => {
                let gap: u128 = if now >= l.1 {
                    now - l.1
                } else {
                    0
                };
                l.0 == idx && gap <= self.threshold
            },
            None => false,
        };
        if double {
            self.last = None;
            ClickKind::Go
        } else {
            self.last = Some((idx, now));
            ClickKind::Select
        }
    }
}

/// Three quick presses are one double click and the beginning of another, not
/// two.
pub proof fn law_triple_click_goes_once(c: ClickView, idx: usize, a: u128, b: u128, d: u128)
    requires
        c.last is None,
        since(a, b) <= c.threshold,
    ensures
        ({
            let one = pressed(c, idx, a);
            let two = pressed(one.0, idx, b);
            let three = pressed(two.0, idx, d);
            &&& one.1 == ClickKind::Select
            &&& two.1 == ClickKind::Go
            &&& three.1 == ClickKind::Select
        }),
{
}

/// A press goes to a card only where the press before it was on the same card and
/// not too long ago; any other selects, and the next press is held against it.
pub proof fn law_only_a_second_press_goes(c: ClickView, idx: usize, now: u128)
    ensures
        pressed(c, idx, now).1 == ClickKind::Go <==> (c.last matches Some(l) && l.0 == idx && (now
            <= l.1 || now - l.1 <= c.threshold)),
        pressed(c, idx, now).1 == ClickKind::Select ==> pressed(c, idx, now).0.last == Some((idx, now)),
        pressed(c, idx, now).1 == ClickKind::Go ==> pressed(c, idx, now).0.last is None,
        pressed(c, idx, now).0.threshold == c.threshold,
{
}

} // verus!

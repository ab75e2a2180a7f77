//! What moving a card from one column to another does.
use vstd::prelude::*;

use crate::model::Column;

verus! {

/// What a card move triggers.
#[derive(Debug, Clone, Copy, PartialEq, Eq, Structural)]
pub enum MoveAction {
    /// Stop the turn.
    Cancel,
    /// Start a turn.
    Nudge,
    /// End the process.
    Kill,
    /// Resume the session.
    Resume,
    /// Resume the session and start a turn.
    ResumeAndNudge,
    /// Nothing.
    NoOp,
}

/// What moving a card from one column to another triggers.
pub open spec fn move_action(from: Column, to: Column) -> MoveAction {
    if to == Column::RequiresAction || from == to {
        MoveAction::NoOp
    } else if to == Column::Dormant {
        MoveAction::Kill
    } else if from == Column::Dormant {
        if to == Column::Idle {
            MoveAction::Resume
        } else {
            MoveAction::ResumeAndNudge
        }
    } else if to == Column::Idle {
        MoveAction::Cancel
    } else if from == Column::Idle {
        MoveAction::Nudge
    } else {
        MoveAction::NoOp
    }
}

/// What moving a card from `from` to `to` triggers.
pub fn action_for(from: Column, to: Column) -> (r: MoveAction)
    ensures
        r == move_action(from, to),
{
    if to == Column::RequiresAction || from == to {
        return MoveAction::NoOp;
    }
    match (from, to) {
        (Column::Running, Column::Idle) => MoveAction::Cancel,
        (Column::RequiresAction, Column::Idle) => MoveAction::Cancel,
        (Column::Idle, Column::Running) => MoveAction::Nudge,
        (Column::RequiresAction, Column::Dormant) => MoveAction::Kill,
        (Column::Idle, Column::Dormant) => MoveAction::Kill,
        (Column::Running, Column::Dormant) => MoveAction::Kill,
        (Column::Dormant, Column::Idle) => MoveAction::Resume,
        (Column::Dormant, Column::Running) => MoveAction::ResumeAndNudge,
        _ => MoveAction::NoOp,
    }
}

/// The columns that a card can be moved into, left to right.
pub const DESTINATIONS: [Column; 3] = [Column::Idle, Column::Running, Column::Dormant];

/// A card can be moved into the column.
pub open spec fn is_destination(c: Column) -> bool {
    c != Column::RequiresAction
}

/// The columns on which a card out of `source` may rest, left to right.
pub open spec fn stops_of(source: Column) -> Seq<Column> {
    if source == Column::RequiresAction {
        seq![Column::RequiresAction, Column::Idle, Column::Running, Column::Dormant]
    } else {
        seq![Column::Idle, Column::Running, Column::Dormant]
    }
}

/// The columns on which a card out of `source` may rest: every destination, and
/// the source itself.
pub fn stops(source: Column) -> (r: Vec<Column>)
    ensures
        r@ == stops_of(source),
{
    let mut v: Vec<Column> = Vec::new();
    if source == Column::RequiresAction {
        v.push(Column::RequiresAction);
    }
    v.push(Column::Idle);
    v.push(Column::Running);
    v.push(Column::Dormant);
    assert(v@ =~= stops_of(source));
    v
}

/// Where a column stands among the stops; the first where it is none.
pub open spec fn stop_index(source: Column, c: Column) -> int {
    if source == Column::RequiresAction {
        c.place()
    } else if c == Column::RequiresAction {
        0
    } else {
        c.place() - 1
    }
}

/// The next stop in a direction, the last being the end.
pub open spec fn slid(source: Column, current: Column, right: bool) -> Column {
    let s = stops_of(source);
    let i = stop_index(source, current);
    if right {
        s[if i + 1 < s.len() {
            i + 1
        } else {
            s.len() - 1
        }]
    } else {
        s[if i > 0 {
            i - 1
        } else {
            0
        }]
    }
}

/// Slides a card one stop further.
pub fn slide_target(source: Column, current: Column, right: bool) -> (r: Column)
    ensures
        r == slid(source, current, right),
{
    let s = stops(source);
    let mut i: usize = 0;
    let mut k: usize = 0;
    let n: usize = s.len();
    while k < n
        invariant
            k <= n == s@.len(),
            s@ == stops_of(source),
            i < n,
            (exists|j: int| 0 <= j < k && s@[j] == current) ==> i < k && s@[i as int] == current,
            !(exists|j: int| 0 <= j < k && s@[j] == current) ==> i == 0,
        decreases n - k,
    {
        if s[k] == current {
            i = k;
        }
        k = k + 1;
    }
    proof {
        let w = stop_index(source, current);
        if current != Column::RequiresAction || source == Column::RequiresAction {
            assert(s@[w] == current);
        }
        assert(i == w);
    }
    if right {
        if i + 1 < n {
            s[i + 1]
        } else {
            s[n - 1]
        }
    } else if i > 0 {
        s[i - 1]
    } else {
        s[0]
    }
}

/// The stop that a move out of `source` first rests on.
pub fn initial_target(source: Column, right: bool) -> (r: Column)
    ensures
        r == slid(source, source, right),
{
    slide_target(source, source, right)
}

/// Whether a move to `target` has landed.
pub fn confirms(target: Column, now: Column) -> (r: bool)
    ensures
        r == (target == now),
{
    target == now
}

/// No move opens a question: a card never comes to require action by being
/// moved, and dropping it where it was does nothing.
pub proof fn law_move_targets(from: Column, to: Column)
    ensures
        move_action(from, Column::RequiresAction) == MoveAction::NoOp,
        move_action(from, from) == MoveAction::NoOp,
        is_destination(to) && from != to ==> move_action(from, to) != MoveAction::NoOp || (from
            == Column::RequiresAction && to == Column::Running),
{
}

/// A sliding card rests only on stops, and requires action only where it came
/// from.
pub proof fn law_slide_stays_on_stops(source: Column, current: Column, right: bool)
    ensures
        stops_of(source).contains(slid(source, current, right)),
        slid(source, current, right) == Column::RequiresAction ==> source == Column::RequiresAction,
{
    let s = stops_of(source);
    let i = stop_index(source, current);
    let k = if right {
        if i + 1 < s.len() {
            i + 1
        } else {
            s.len() - 1
        }
    } else if i > 0 {
        i - 1
    } else {
        0
    };
    assert(s[k] == slid(source, current, right));
}

/// Sliding there and back again, either way, rests where it began, unless an end
/// was in the way.
pub proof fn law_slide_back(source: Column, current: Column, right: bool)
    requires
        stops_of(source).contains(current),
        slid(source, current, right) != current,
    ensures
        slid(source, slid(source, current, right), !right) == current,
{
}

/// Only an end is in the way: to the right that is Dormant, to the left the first
/// stop.
pub proof fn law_slide_ends(source: Column, current: Column)
    requires
        stops_of(source).contains(current),
    ensures
        slid(source, current, true) == current <==> current == Column::Dormant,
        slid(source, current, false) == current <==> current == stops_of(source)[0],
{
}

/// A slide goes to the neighbouring stop on its side: never back, and over no
/// stop.
pub proof fn law_slide_goes_to_the_next_stop(source: Column, current: Column, c: Column)
    requires
        stops_of(source).contains(current),
        stops_of(source).contains(c),
    ensures
        slid(source, current, true).place() >= current.place(),
        slid(source, current, false).place() <= current.place(),
        c.place() > current.place() ==> slid(source, current, true).place() > current.place() && slid(
            source,
            current,
            true,
        ).place() <= c.place(),
        c.place() < current.place() ==> slid(source, current, false).place() < current.place() && slid(
            source,
            current,
            false,
        ).place() >= c.place(),
        stops_of(source).contains(source),
{
    let s = stops_of(source);
    let i = choose|i: int| 0 <= i < s.len() && s[i] == current;
    let j = choose|j: int| 0 <= j < s.len() && s[j] == c;
    assert(s[i] == current && s[j] == c);
    if source == Column::RequiresAction {
        assert(s[0] == Column::RequiresAction && s[1] == Column::Idle && s[2] == Column::Running && s[3]
            == Column::Dormant);
    } else {
        assert(s[0] == Column::Idle && s[1] == Column::Running && s[2] == Column::Dormant);
    }
}

/// What a move asks of the agent is what its target column stands for: to be put
/// to sleep, to stop its turn, to be woken, to be set to work.
pub proof fn law_move_asks_for_what_the_column_stands_for(from: Column)
    ensures
        from != Column::Dormant ==> move_action(from, Column::Dormant) == MoveAction::Kill,
        from == Column::Running || from == Column::RequiresAction ==> move_action(from, Column::Idle)
            == MoveAction::Cancel,
        move_action(Column::Idle, Column::Running) == MoveAction::Nudge,
        move_action(Column::Dormant, Column::Idle) == MoveAction::Resume,
        move_action(Column::Dormant, Column::Running) == MoveAction::ResumeAndNudge,
        move_action(Column::RequiresAction, Column::Running) == MoveAction::NoOp,
{
}

} // verus!

//! Moving cards between columns.
use corral::model::Column::{self, Dormant, Idle, RequiresAction, Running};
use corral::transition::{
    action_for, confirms, initial_target, slide_target, stops, MoveAction, DESTINATIONS,
};

#[test]
fn live_state_transitions() {
    assert_eq!(action_for(Running, Idle), MoveAction::Cancel);
    assert_eq!(action_for(RequiresAction, Idle), MoveAction::Cancel);
    assert_eq!(action_for(Idle, Running), MoveAction::Nudge);
}

#[test]
fn kill_from_any_live_column() {
    assert_eq!(action_for(RequiresAction, Dormant), MoveAction::Kill);
    assert_eq!(action_for(Idle, Dormant), MoveAction::Kill);
    assert_eq!(action_for(Running, Dormant), MoveAction::Kill);
}

#[test]
fn resume_from_dormant() {
    assert_eq!(action_for(Dormant, Idle), MoveAction::Resume);
    assert_eq!(action_for(Dormant, Running), MoveAction::ResumeAndNudge);
}

#[test]
fn requires_action_is_never_a_destination() {
    for from in Column::ALL {
        assert_eq!(action_for(from, RequiresAction), MoveAction::NoOp);
    }
}

#[test]
fn same_column_is_noop() {
    for c in Column::ALL {
        assert_eq!(action_for(c, c), MoveAction::NoOp);
    }
}

#[test]
fn stops_include_source_and_destinations() {
    // A destination source: stops are just the destinations.
    assert_eq!(stops(Running), vec![Idle, Running, Dormant]);
    // Requires Action source: it is a stop too (so you can cancel by
    // dropping back home), in display order.
    assert_eq!(
        stops(RequiresAction),
        vec![RequiresAction, Idle, Running, Dormant]
    );
}

#[test]
fn slide_clamps_within_stops() {
    // From a Running-origin card (stops = Idle/Running/Dormant).
    assert_eq!(slide_target(Running, Idle, false), Idle); // clamp left
    assert_eq!(slide_target(Running, Idle, true), Running);
    assert_eq!(slide_target(Running, Running, true), Dormant);
    assert_eq!(slide_target(Running, Dormant, true), Dormant); // clamp right
                                                               // A Requires-Action-origin card can slide back onto Requires Action.
    assert_eq!(slide_target(RequiresAction, Idle, false), RequiresAction);
    assert_eq!(slide_target(RequiresAction, RequiresAction, true), Idle);
}

#[test]
fn can_rest_on_source_to_cancel() {
    // Sliding back to the source column yields a no-op action = cancel.
    assert_eq!(
        action_for(Running, slide_target(Running, Idle, true)),
        MoveAction::NoOp
    );
    assert_eq!(
        action_for(RequiresAction, slide_target(RequiresAction, Idle, false)),
        MoveAction::NoOp
    );
}

#[test]
fn initial_target_steps_off_source() {
    assert_eq!(initial_target(Running, false), Idle);
    assert_eq!(initial_target(Running, true), Dormant);
    assert_eq!(initial_target(Idle, true), Running);
    assert_eq!(initial_target(Idle, false), Idle); // clamp at left stop
                                                   // Requires Action steps right to Idle; left clamps onto itself (cancel).
    assert_eq!(initial_target(RequiresAction, true), Idle);
    assert_eq!(initial_target(RequiresAction, false), RequiresAction);
}

#[test]
fn confirms_on_reaching_target() {
    assert!(confirms(Idle, Idle));
    assert!(!confirms(Idle, Running));
}

#[test]
fn sliding_there_and_back_rests_where_it_began() {
    for source in Column::ALL {
        for current in stops(source) {
            for right in [false, true] {
                let there = slide_target(source, current, right);
                if there != current {
                    assert_eq!(slide_target(source, there, !right), current);
                }
            }
        }
    }
}

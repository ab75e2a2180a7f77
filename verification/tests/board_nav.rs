//! The arrow keys over the board.
use corral::nav::{locate, move_col, move_row};

#[test]
fn navigation_maps_flat_index_to_columns() {
    // RequiresAction=2, Idle=0, Running=1, Dormant=0. order: RA0, RA1, Run0.
    let counts = [2usize, 0, 1, 0];
    assert_eq!(locate(0, &counts), (0, 0));
    assert_eq!(locate(2, &counts), (2, 0));
    // Down within the column, clamped.
    assert_eq!(move_row(0, &counts, true), 1);
    assert_eq!(move_row(1, &counts, true), 1);
    assert_eq!(move_row(1, &counts, false), 0);
    // Right from RA skips the empty Idle column to Running.
    assert_eq!(move_col(1, &counts, true), 2);
    // Left from Running lands back in RA, row clamped.
    assert_eq!(move_col(2, &counts, false), 0);
    // Right from the last column stays put.
    assert_eq!(move_col(2, &counts, true), 2);
}

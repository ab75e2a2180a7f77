//! Moving over the board.
use corral::nav::{
    at_board_edge, at_vertical_edge, board_entry, column_entry, flat, locate, move_col, move_row,
    move_selection,
};

#[test]
fn nav_navigation_maps_flat_index_to_columns() {
    // RequiresAction=2, Idle=0, Running=1, Dormant=0. order: RA0, RA1, Run0.
    let counts = [2usize, 0, 1, 0];
    assert_eq!(locate(0, &counts), (0, 0));
    assert_eq!(locate(2, &counts), (2, 0));
    // Down within the column, clamped.
    assert_eq!(move_row(0, &counts, true), 1);
    assert_eq!(move_row(1, &counts, true), 1);
    assert_eq!(move_row(1, &counts, false), 0);
    // Right from RA skips the empty Idle column to Running.
    assert_eq!(move_col(1, &counts, true), 2);
    // Left from Running lands back in RA, row clamped.
    assert_eq!(move_col(2, &counts, false), 0);
    // Right from the last column stays put.
    assert_eq!(move_col(2, &counts, true), 2);
}

#[test]
fn vertical_edges_ring_through_the_input() {
    // RA=2, Idle=0, Running=1, Dormant=0. flat: RA0=0, RA1=1, Run0=2.
    let counts = [2usize, 0, 1, 0];
    // Top of a column (row 0) is an up-edge; not a down-edge.
    assert!(at_vertical_edge(0, &counts, false));
    assert!(!at_vertical_edge(0, &counts, true));
    // Bottom of the RA column (RA1) is a down-edge; not an up-edge.
    assert!(at_vertical_edge(1, &counts, true));
    assert!(!at_vertical_edge(1, &counts, false));
    // A single-row column (Running) is both edges at once.
    assert!(at_vertical_edge(2, &counts, true));
    assert!(at_vertical_edge(2, &counts, false));
    // Entering from the input: Down -> that column's first row, Up -> last.
    assert_eq!(column_entry(1, &counts, true), 0);
    assert_eq!(column_entry(0, &counts, false), 1);
}

#[test]
fn places_and_indices_agree() {
    let counts = [2usize, 0, 3, 1];
    for i in 0..6 {
        let (c, r) = locate(i, &counts);
        assert_eq!(flat(c, r, &counts), i);
    }
}

#[test]
fn tab_runs_over_the_columns() {
    let counts = [2usize, 0, 1, 0];
    assert_eq!(move_selection(0, &counts, true), 1);
    assert!(at_board_edge(2, &counts, true));
    assert!(!at_board_edge(1, &counts, true));
    assert!(at_board_edge(0, &counts, false));
    assert_eq!(board_entry(1, &counts, true), 0);
    assert_eq!(board_entry(1, &counts, false), 2);
}

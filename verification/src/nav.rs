//! Moving the selection over the board's columns. The selection is one flat
//! index over all columns; the counts are those of the columns, in display
//! order.
use vstd::prelude::*;

verus! {

/// How many cards stand in the columns before `col`.
pub open spec fn offset(counts: Seq<usize>, col: int) -> int
    decreases col,
{
    if col <= 0 {
        0
    } else {
        offset(counts, col - 1) + counts[col - 1]
    }
}

/// How many cards there are.
pub open spec fn total(counts: Seq<usize>) -> int {
    offset(counts, 4)
}

/// The column and row of a flat index; the first of both where there is no such
/// card.
pub open spec fn place_of(index: int, counts: Seq<usize>) -> (int, int) {
    if index < counts[0] {
        (0, index)
    } else if index < counts[0] + counts[1] {
        (1, index - counts[0])
    } else if index < counts[0] + counts[1] + counts[2] {
        (2, index - counts[0] - counts[1])
    } else if index < counts[0] + counts[1] + counts[2] + counts[3] {
        (3, index - counts[0] - counts[1] - counts[2])
    } else {
        (0, 0)
    }
}

/// The flat index of a column and row.
pub open spec fn index_of(col: int, row: int, counts: Seq<usize>) -> int {
    offset(counts, col) + row
}

pub proof fn lemma_offsets(counts: Seq<usize>)
    ensures
        offset(counts, 0) == 0,
        offset(counts, 1) == counts[0],
        offset(counts, 2) == counts[0] + counts[1],
        offset(counts, 3) == counts[0] + counts[1] + counts[2],
        offset(counts, 4) == counts[0] + counts[1] + counts[2] + counts[3],
{
    reveal_with_fuel(offset, 5);
}

/// Every card has one place, and every place one index: going from one to the
/// other and back changes nothing.
pub proof fn law_places_and_indices_agree(counts: Seq<usize>, index: int, col: int, row: int)
    requires
        counts.len() == 4,
    ensures
        0 <= index < total(counts) ==> index_of(
            place_of(index, counts).0,
            place_of(index, counts).1,
            counts,
        ) == index,
        0 <= col < 4 && 0 <= row < counts[col] ==> place_of(index_of(col, row, counts), counts) == (
            col,
            row,
        ) && 0 <= index_of(col, row, counts) < total(counts),
{
    lemma_offsets(counts);
}

/// A flat index as column and row.
pub fn locate(index: usize, counts: &[usize; 4]) -> (r: (usize, usize))
    ensures
        (r.0 as int, r.1 as int) == place_of(index as int, counts@),
        r.0 < 4,
        counts@[r.0 as int] > 0 ==> r.1 < counts@[r.0 as int],
        counts@[r.0 as int] == 0 ==> r.0 == 0 && r.1 == 0,
{
    let mut i: usize = index;
    if i < counts[0] {
        return (0, i);
    }
    i = i - counts[0];
    if i < counts[1] {
        return (1, i);
    }
    i = i - counts[1];
    if i < counts[2] {
        return (2, i);
    }
    i = i - counts[2];
    if i < counts[3] {
        return (3, i);
    }
    (0, 0)
}

/// A column and row as flat index.
pub fn flat(col: usize, row: usize, counts: &[usize; 4]) -> (r: usize)
    requires
        col < 4,
        index_of(col as int, row as int, counts@) <= usize::MAX,
    ensures
        r == index_of(col as int, row as int, counts@),
{
    proof {
        lemma_offsets(counts@);
    }
    if col == 0 {
        row
    } else if col == 1 {
        counts[0] + row
    } else if col == 2 {
        counts[0] + counts[1] + row
    } else {
        counts[0] + counts[1] + counts[2] + row
    }
}

/// The index one row further, within the column.
#[verifier::opaque]
pub open spec fn row_moved(index: int, counts: Seq<usize>, down: bool) -> int {
    let (c, r) = place_of(index, counts);
    if counts[c] == 0 {
        index
    } else if down {
        index_of(c, if r + 1 < counts[c] {
            r + 1
        } else {
            counts[c] - 1
        }, counts)
    } else {
        index_of(c, if r > 0 {
            r - 1
        } else {
            0
        }, counts)
    }
}

/// Moves within the column, up or down, and stays in it.
pub fn move_row(index: usize, counts: &[usize; 4], down: bool) -> (r: usize)
    requires
        total(counts@) <= usize::MAX,
    ensures
        r == row_moved(index as int, counts@, down),
{
    proof {
        reveal(row_moved);
    }
    proof {
        lemma_offsets(counts@);
    }
    let (c, row) = locate(index, counts);
    if counts[c] == 0 {
        return index;
    }
    let next: usize = if down {
        if row + 1 < counts[c] {
            row + 1
        } else {
            counts[c] - 1
        }
    } else if row > 0 {
        row - 1
    } else {
        0
    };
    flat(c, next, counts)
}

/// A move by one row would leave the column.
pub open spec fn on_edge(index: int, counts: Seq<usize>, down: bool) -> bool {
    let (c, r) = place_of(index, counts);
    counts[c] == 0 || (if down {
        r + 1 >= counts[c]
    } else {
        r == 0
    })
}

/// Whether a move by one row would leave the column.
pub fn at_vertical_edge(index: usize, counts: &[usize; 4], down: bool) -> (r: bool)
    ensures
        r == on_edge(index as int, counts@, down),
{
    let (c, row) = locate(index, counts);
    if counts[c] == 0 {
        return true;
    }
    if down {
        row + 1 >= counts[c]
    } else {
        row == 0
    }
}

/// The first or last card of the column.
pub open spec fn entered(index: int, counts: Seq<usize>, down: bool) -> int {
    let (c, _r) = place_of(index, counts);
    if counts[c] == 0 {
        index
    } else {
        index_of(c, if down {
            0
        } else {
            counts[c] - 1
        }, counts)
    }
}

/// Where a column is entered from the filter: at its first card going down, at
/// its last going up.
pub fn column_entry(index: usize, counts: &[usize; 4], down: bool) -> (r: usize)
    requires
        total(counts@) <= usize::MAX,
    ensures
        r == entered(index as int, counts@, down),
{
    proof {
        lemma_offsets(counts@);
    }
    let (c, _row) = locate(index, counts);
    if counts[c] == 0 {
        return index;
    }
    let row: usize = if down {
        0
    } else {
        counts[c] - 1
    };
    flat(c, row, counts)
}

/// The nearest column with a card in a direction.
pub open spec fn next_filled(col: int, counts: Seq<usize>, right: bool) -> Option<int>
    decreases if right {
        4 - col
    } else {
        col
    },
{
    let next = if right {
        col + 1
    } else {
        col - 1
    };
    if col < 0 || col >= 4 || next < 0 || next >= 4 {
        None
    } else if counts[next] > 0 {
        Some(next)
    } else {
        next_filled(next, counts, right)
    }
}

/// The index in the nearest column with a card, in the same row where it has
/// one.
#[verifier::opaque]
pub open spec fn col_moved(index: int, counts: Seq<usize>, right: bool) -> int {
    let (c, r) = place_of(index, counts);
    match next_filled(c, counts, right) {
        Some(t) => index_of(t, if r < counts[t] {
            r
        } else {
            counts[t] - 1
        }, counts),
        None => index,
    }
}

/// Jumps to the nearest column with a card, keeping the row where possible.
pub fn move_col(index: usize, counts: &[usize; 4], right: bool) -> (r: usize)
    requires
        total(counts@) <= usize::MAX,
    ensures
        r == col_moved(index as int, counts@, right),
{
    proof {
        reveal(col_moved);
    }
    proof {
        lemma_offsets(counts@);
    }
    let (c, row) = locate(index, counts);
    let mut t: usize = c;
    while (right && t < 3) || (!right && t > 0)
        invariant
            t < 4,
            c < 4,
            total(counts@) <= usize::MAX,
            total(counts@) == counts@[0] + counts@[1] + counts@[2] + counts@[3],
            (c as int, row as int) == place_of(index as int, counts@),
            next_filled(c as int, counts@, right) == next_filled(t as int, counts@, right),
        decreases if right {
            3 - t
        } else {
            t as int
        },
    {
        if right {
            t = t + 1;
        } else {
            t = t - 1;
        }
        if counts[t] > 0 {
            let to: usize = if row < counts[t] {
                row
            } else {
                counts[t] - 1
            };
            proof {
                lemma_offsets(counts@);
                reveal(col_moved);
            }
            return flat(t, to, counts);
        }
    }
    index
}

/// Where the board is entered from the filter: at its first card going down, at
/// its last going up. An empty board leaves the index.
pub fn board_entry(index: usize, counts: &[usize; 4], down: bool) -> (r: usize)
    requires
        total(counts@) <= usize::MAX,
    ensures
        r == (if total(counts@) == 0 {
            index as int
        } else if down {
            0
        } else {
            total(counts@) - 1
        }),
{
    proof {
        lemma_offsets(counts@);
    }
    let n: usize = counts[0] + counts[1] + counts[2] + counts[3];
    if n == 0 {
        index
    } else if down {
        0
    } else {
        n - 1
    }
}

/// Whether the selection stands on the board's last card, going down, or on its
/// first, going up; an empty board is all edge.
pub fn at_board_edge(index: usize, counts: &[usize; 4], down: bool) -> (r: bool)
    requires
        total(counts@) <= usize::MAX,
    ensures
        r == (total(counts@) == 0 || (if down {
            index + 1 >= total(counts@)
        } else {
            index == 0
        })),
{
    proof {
        lemma_offsets(counts@);
    }
    let n: usize = counts[0] + counts[1] + counts[2] + counts[3];
    if n == 0 {
        true
    } else if down {
        index >= n - 1
    } else {
        index == 0
    }
}

/// Moves by one card over the whole board, and stays on it.
pub fn move_selection(index: usize, counts: &[usize; 4], down: bool) -> (r: usize)
    requires
        total(counts@) <= usize::MAX,
    ensures
        r == (if total(counts@) == 0 {
            index as int
        } else if down {
            if index + 1 < total(counts@) {
                index + 1
            } else {
                total(counts@) - 1
            }
        } else if index > 0 {
            index - 1
        } else {
            0
        }),
{
    proof {
        lemma_offsets(counts@);
    }
    let n: usize = counts[0] + counts[1] + counts[2] + counts[3];
    if n == 0 {
        index
    } else if down {
        if index < n - 1 {
            index + 1
        } else {
            n - 1
        }
    } else if index > 0 {
        index - 1
    } else {
        0
    }
}

/// A selected card stays selected: no move leaves the board, and a move within
/// a column stays in it.
pub proof fn law_moves_stay_on_the_board(index: int, counts: Seq<usize>, way: bool)
    requires
        counts.len() == 4,
        0 <= index < total(counts),
    ensures
        0 <= row_moved(index, counts, way) < total(counts),
        0 <= col_moved(index, counts, way) < total(counts),
        0 <= entered(index, counts, way) < total(counts),
        place_of(row_moved(index, counts, way), counts).0 == place_of(index, counts).0,
        place_of(entered(index, counts, way), counts).0 == place_of(index, counts).0,
        on_edge(index, counts, way) <==> row_moved(index, counts, way) == index,
{
    reveal(row_moved);
    reveal(col_moved);
    lemma_offsets(counts);
    lemma_next_filled(place_of(index, counts).0, counts, way);
}

proof fn lemma_next_filled(col: int, counts: Seq<usize>, right: bool)
    requires
        counts.len() == 4,
        0 <= col < 4,
    ensures
        next_filled(col, counts, right) matches Some(t) ==> 0 <= t < 4 && counts[t] > 0 && (if right {
            t > col
        } else {
            t < col
        }) && forall|k: int|
            #![trigger counts[k]]
            (if right {
                col < k < t
            } else {
                t < k < col
            }) ==> counts[k] == 0,
        next_filled(col, counts, right) is None ==> forall|k: int|
            #![trigger counts[k]]
            (if right {
                col < k < 4
            } else {
                0 <= k < col
            }) ==> counts[k] == 0,
    decreases if right {
        4 - col
    } else {
        col
    },
{
    let next = if right {
        col + 1
    } else {
        col - 1
    };
    if 0 <= next < 4 && counts[next] == 0 {
        lemma_next_filled(next, counts, right);
    }
}

/// A jump between columns lands in the nearest one with a card, skipping only
/// empty ones, or stays where there is none.
pub proof fn law_jump_skips_only_empty_columns(index: int, counts: Seq<usize>, right: bool)
    requires
        counts.len() == 4,
        0 <= index < total(counts),
    ensures
        ({
            let (c, r) = place_of(index, counts);
            let (d, s) = place_of(col_moved(index, counts, right), counts);
            &&& if right {
                d >= c
            } else {
                d <= c
            }
            &&& d == c ==> col_moved(index, counts, right) == index
            &&& d != c ==> forall|k: int|
                #![trigger counts[k]]
                (if right {
                    c < k < d
                } else {
                    d < k < c
                }) ==> counts[k] == 0
            &&& s <= r
        }),
{
    reveal(col_moved);
    lemma_offsets(counts);
    lemma_next_filled(place_of(index, counts).0, counts, right);
}

/// A step along a column is a step of one, but at its end: down to the next card
/// and up to the one before. Entering a column downwards is at its top and
/// upwards at its bottom.
pub proof fn law_row_step_is_one(index: int, counts: Seq<usize>)
    requires
        counts.len() == 4,
        0 <= index < total(counts),
    ensures
        !on_edge(index, counts, true) ==> row_moved(index, counts, true) == index + 1,
        !on_edge(index, counts, false) ==> row_moved(index, counts, false) == index - 1,
        on_edge(index, counts, true) <==> place_of(index, counts).1 + 1 == counts[place_of(
            index,
            counts,
        ).0],
        on_edge(index, counts, false) <==> place_of(index, counts).1 == 0,
        place_of(entered(index, counts, true), counts).1 == 0,
        place_of(entered(index, counts, false), counts).1 + 1 == counts[place_of(index, counts).0],
{
    let (c, r) = place_of(index, counts);
    reveal(row_moved);
    lemma_offsets(counts);
    law_places_and_indices_agree(counts, index, c, 0);
    law_places_and_indices_agree(counts, index, c, counts[c] - 1);
    law_places_and_indices_agree(counts, index, c, r);
}

/// A step to the side goes to the next column that has a card, wherever one is,
/// and keeps the row as far as that column reaches.
pub proof fn law_side_step_keeps_the_row(index: int, counts: Seq<usize>, right: bool, k: int)
    requires
        counts.len() == 4,
        0 <= index < total(counts),
    ensures
        ({
            let (c, r) = place_of(index, counts);
            let (d, s) = place_of(col_moved(index, counts, right), counts);
            &&& 0 <= k < 4 && counts[k] > 0 && (if right {
                c < k
            } else {
                k < c
            }) ==> d != c
            &&& d != c ==> s == (if r < counts[d] {
                r
            } else {
                counts[d] - 1
            })
        }),
{
    let (c, r) = place_of(index, counts);
    reveal(col_moved);
    lemma_offsets(counts);
    lemma_next_filled(c, counts, right);
    match next_filled(c, counts, right) {
        Some(t) => {
            let row = if r < counts[t] {
                r
            } else {
                counts[t] - 1
            };
            law_places_and_indices_agree(counts, index, t, row);
        },
        None => {},
    }
}

} // verus!

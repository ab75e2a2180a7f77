//! Where the parts of the board lie on the screen, and what lies under a cell.
use vstd::prelude::*;

use ratatui::layout::{Constraint, Direction, Layout};

use crate::menu::MenuAction;
use crate::model::{agent_refs, law_counts_add_up, Agent, Board, BoardView, Column};
use crate::nav::{lemma_offsets, offset, total};
use crate::text::char_count;

verus! {

/// Blank cells at either side of a column.
pub const PAD: u16 = 1;

/// Rows above a column's cards.
pub const HEAD_ROWS: u16 = 2;

/// Rows of one card.
pub const CARD_ROWS: u16 = 3;

/// Rows at the top that the filter takes.
pub const FILTER_ROWS: u16 = 4;

/// Rows at the bottom: what is said, and the key hints.
pub const FOOTER_ROWS: u16 = 2;

/// Blank cells between two columns.
pub const GUTTER: u16 = 3;

/// A part of the screen.
#[derive(Debug, Clone, Copy, PartialEq, Eq, Structural)]
pub struct Rect {
    pub x: u16,
    pub y: u16,
    pub width: u16,
    pub height: u16,
}

impl Rect {
    /// The first column behind the part.
    pub open spec fn right(self) -> int {
        self.x + self.width
    }

    /// The first row below the part.
    pub open spec fn bottom(self) -> int {
        self.y + self.height
    }

    /// The part lies within another.
    pub open spec fn within(self, area: Rect) -> bool {
        &&& area.x <= self.x
        &&& self.right() <= area.right()
        &&& area.y <= self.y
        &&& self.bottom() <= area.bottom()
    }

    /// A column of cells crosses the part.
    pub open spec fn spans(self, col: u16) -> bool {
        self.x <= col < self.right()
    }

    /// A cell lies in the part.
    pub open spec fn holds(self, col: u16, row: u16) -> bool {
        self.spans(col) && self.y <= row < self.bottom()
    }
}

fn spans(r: Rect, col: u16) -> (b: bool)
    ensures
        b == r.spans(col),
{
    r.x <= col && (col as u32) < r.x as u32 + r.width as u32
}

fn holds(r: Rect, col: u16, row: u16) -> (b: bool)
    ensures
        b == r.holds(col, row),
{
    spans(r, col) && r.y <= row && (row as u32) < r.y as u32 + r.height as u32
}

/// The sum of two coordinates, at most the last there is.
pub open spec fn plus(a: u16, b: u16) -> u16 {
    if a + b <= u16::MAX {
        (a + b) as u16
    } else {
        u16::MAX
    }
}

/// The difference of two sizes, or none.
pub open spec fn minus(a: u16, b: u16) -> u16 {
    if a >= b {
        (a - b) as u16
    } else {
        0
    }
}

/// The sum of two coordinates, at most the last there is.
pub fn add_cells(a: u16, b: u16) -> (r: u16)
    ensures
        r == plus(a, b),
{
    if a <= u16::MAX - b {
        a + b
    } else {
        u16::MAX
    }
}

/// The difference of two sizes, or none.
pub fn less_cells(a: u16, b: u16) -> (r: u16)
    ensures
        r == minus(a, b),
{
    if a >= b {
        a - b
    } else {
        0
    }
}

/// Which way an area is split.
#[derive(Debug, Clone, Copy, PartialEq, Eq, Structural)]
pub enum Axis {
    /// Into parts below each other.
    Rows,
    /// Into parts beside each other.
    Columns,
}

/// How large a part of a split is to be.
#[derive(Debug, Clone, Copy, PartialEq, Eq, Structural)]
pub enum Part {
    Length(u16),
    AtLeast(u16),
    Percent(u16),
    Ratio(u32, u32),
}

/// Where a part begins, along the split.
pub open spec fn start_along(r: Rect, axis: Axis) -> int {
    match axis {
        Axis::Rows => r.y as int,
        Axis::Columns => r.x as int,
    }
}

/// How large a part is, along the split.
pub open spec fn size_along(r: Rect, axis: Axis) -> int {
    match axis {
        Axis::Rows => r.height as int,
        Axis::Columns => r.width as int,
    }
}

/// What the parts of a fixed length take together.
pub open spec fn lengths(parts: Seq<Part>) -> int
    decreases parts.len(),
{
    if parts.len() == 0 {
        0
    } else {
        lengths(parts.drop_last()) + (match parts.last() {
            Part::Length(n) => n as int,
            _ => 0,
        })
    }
}

/// One part grows, and the others are of a fixed length.
pub open spec fn grows_at(parts: Seq<Part>, k: int) -> bool {
    &&& 0 <= k < parts.len()
    &&& parts[k] == Part::AtLeast(0)
    &&& forall|j: int| 0 <= j < parts.len() && j != k ==> (#[trigger] parts[j]) is Length
}

/// The blank cells between the parts fit.
pub open spec fn spaced(parts: Seq<Part>, spacing: u16, room: int) -> bool {
    &&& 0 < parts.len() <= 16
    &&& spacing <= 1000
    &&& spacing * (parts.len() - 1) <= room
}

/// The parts are the four quarters of what they have.
pub open spec fn quarters(parts: Seq<Part>) -> bool {
    parts.len() == 4 && forall|j: int| 0 <= j < 4 ==> (#[trigger] parts[j]) == Part::Ratio(1, 4)
}

/// So many quarters, to the next whole cell.
pub open spec fn quarter(room: int, n: int) -> int {
    (room * n + 2) / 4
}

/// What the parts that are a share of the area take together, in percent.
pub open spec fn percents(parts: Seq<Part>) -> int
    decreases parts.len(),
{
    if parts.len() == 0 {
        0
    } else {
        percents(parts.drop_last()) + (match parts.last() {
            Part::Percent(p) => p as int,
            _ => 0,
        })
    }
}

/// Every part is a share of the area, and together they are no more than it.
pub open spec fn shared_out(parts: Seq<Part>) -> bool {
    &&& 0 < parts.len() <= 16
    &&& forall|j: int| 0 <= j < parts.len() ==> (#[trigger] parts[j]) is Percent
    &&& percents(parts) <= 100
}

/// The share of so many percent, to the next whole cell.
pub open spec fn share(room: int, percent: int) -> int {
    (room * percent + 50) / 100
}

/// Wraps `ratatui::layout::Layout::split`: an area is split into as many parts as
/// were asked for, each within it and as wide, or as high, as the area is across
/// the split. Beyond that:
///
/// - Where one part grows and the lengths of the others fit with the blank cells
///   between the parts, the first part begins where the area does, each other one
///   so many cells behind the one before it, each of a fixed length has it, and
///   the one that grows has the rest. Where the lengths do not fit, it has
///   nothing.
/// - Four quarters share evenly what the blank cells leave, and each begins and
///   ends at the next whole cell. Where the blank cells do not fit, nothing is
///   left for any of them.
/// - Where all parts are shares of the area in percent, with nothing between them,
///   each begins and ends at the cell next to where the shares before it, and its
///   own, end.
///
/// How large the parts come out otherwise is not stated: where several layouts
/// fit the demands equally well the result is documented as indeterminate, and
/// the solver behind it walks hash maps that each process seeds.
#[verifier::external_body]
fn split(area: Rect, axis: Axis, parts: &Vec<Part>, spacing: u16) -> (r: Vec<Rect>)
    requires
        area.right() <= u16::MAX,
        area.bottom() <= u16::MAX,
    ensures
        r@.len() == parts@.len(),
        forall|i: int| 0 <= i < r@.len() ==> (#[trigger] r@[i]).within(area),
        axis == Axis::Rows ==> forall|i: int|
            0 <= i < r@.len() ==> (#[trigger] r@[i]).x == area.x && r@[i].width == area.width,
        axis == Axis::Columns ==> forall|i: int|
            0 <= i < r@.len() ==> (#[trigger] r@[i]).y == area.y && r@[i].height == area.height,
        forall|k: int|
            #![trigger grows_at(parts@, k)]
            spaced(parts@, spacing, size_along(area, axis)) && grows_at(parts@, k) ==> if lengths(
                parts@,
            ) + spacing * (parts@.len() - 1) <= size_along(area, axis) {
                &&& start_along(r@[0], axis) == start_along(area, axis)
                &&& forall|i: int|
                    0 < i < r@.len() ==> start_along(#[trigger] r@[i], axis) == start_along(r@[i - 1], axis)
                        + size_along(r@[i - 1], axis) + spacing
                &&& forall|i: int|
                    0 <= i < r@.len() && i != k ==> size_along(#[trigger] r@[i], axis)
                        == parts@[i]->Length_0
                &&& size_along(r@[k], axis) == size_along(area, axis) - lengths(parts@) - spacing * (
                parts@.len() - 1)
            } else {
                size_along(r@[k], axis) == 0
            },
        quarters(parts@) && spacing <= 1000 ==> forall|i: int|
            0 <= i < 4 ==> {
                let room = size_along(area, axis) - 3 * spacing;
                if room >= 0 {
                    &&& start_along(#[trigger] r@[i], axis) == start_along(area, axis) + spacing * i + quarter(
                        room,
                        i,
                    )
                    &&& size_along(r@[i], axis) == quarter(room, i + 1) - quarter(room, i)
                } else {
                    size_along(r@[i], axis) == 0
                }
            },
        spacing == 0 && shared_out(parts@) ==> forall|i: int|
            0 <= i < r@.len() ==> {
                let from = share(size_along(area, axis), percents(parts@.take(i)));
                let to = share(size_along(area, axis), percents(parts@.take(i + 1)));
                &&& start_along(#[trigger] r@[i], axis) == start_along(area, axis) + from
                &&& size_along(r@[i], axis) == to - from
            },
{
    let direction = match axis {
        Axis::Rows => Direction::Vertical,
        Axis::Columns => Direction::Horizontal,
    };
    let constraints = parts.iter().map(|p| match p {
        Part::Length(n) => Constraint::Length(*n),
        Part::AtLeast(n) => Constraint::Min(*n),
        Part::Percent(n) => Constraint::Percentage(*n),
        Part::Ratio(n, d) => Constraint::Ratio(*n, *d),
    });
    let outer = ratatui::layout::Rect::new(area.x, area.y, area.width, area.height);
    Layout::new(direction, constraints).spacing(spacing).split(outer).iter().map(
        |r| Rect { x: r.x, y: r.y, width: r.width, height: r.height },
    ).collect()
}

/// Where the parts of the board lie. What is drawn and what is hit go by one
/// value of this, so the two cannot drift apart.
#[derive(Debug, Clone, Copy)]
pub struct Geometry {
    /// The whole screen.
    pub area: Rect,
    /// The strip that holds the filter.
    pub filter: Rect,
    /// The columns, left to right.
    pub columns: [Rect; 4],
    /// The heading of each column.
    pub heads: [Rect; 4],
    /// The rule below each heading.
    pub rules: [Rect; 4],
    /// The cards of each column.
    pub cards: [Rect; 4],
    /// The row of key hints.
    pub footer: Rect,
}

/// A column without the blank cells at its sides.
pub open spec fn column_inner(r: Rect) -> Rect {
    Rect { x: plus(r.x, PAD), y: r.y, width: minus(r.width, 2), height: r.height }
}

/// The row of key hints in the two rows at the bottom.
pub open spec fn footer_in(bottom: Rect) -> Rect {
    Rect { x: plus(bottom.x, PAD), y: plus(bottom.y, 1), width: minus(bottom.width, 2), height: 1 }
}

/// Three parts below each other, the `k`th of which grows: their heights and
/// where they begin, where the others fit.
pub open spec fn stacked(area: Rect, a: Part, b: Part, c: Part, k: int, r: (Rect, Rect, Rect)) -> bool {
    let parts = seq![a, b, c];
    let height = |i: int|
        if i == k {
            area.height - lengths(parts)
        } else {
            parts[i]->Length_0 as int
        };
    &&& r.0.y == area.y && r.0.height == height(0)
    &&& r.1.y == area.y + height(0) && r.1.height == height(1)
    &&& r.2.y == area.y + height(0) + height(1) && r.2.height == height(2)
}

/// The `k`th of three parts has no height.
pub open spec fn flattened(k: int, r: (Rect, Rect, Rect)) -> bool {
    if k == 0 {
        r.0.height == 0
    } else if k == 1 {
        r.1.height == 0
    } else {
        r.2.height == 0
    }
}

fn split_rows(area: Rect, a: Part, b: Part, c: Part) -> (r: (Rect, Rect, Rect))
    requires
        area.right() <= u16::MAX,
        area.bottom() <= u16::MAX,
    ensures
        r.0.within(area) && r.1.within(area) && r.2.within(area),
        r.0.x == area.x && r.0.width == area.width,
        r.1.x == area.x && r.1.width == area.width,
        r.2.x == area.x && r.2.width == area.width,
        forall|k: int|
            grows_at(seq![a, b, c], k) && lengths(seq![a, b, c]) <= area.height ==> #[trigger] stacked(
                area,
                a,
                b,
                c,
                k,
                r,
            ),
        forall|k: int|
            grows_at(seq![a, b, c], k) && lengths(seq![a, b, c]) > area.height ==> #[trigger] flattened(k, r),
        shared_out(seq![a, b, c]) ==> {
            let from = share(area.height as int, percents(seq![a]));
            let to = share(area.height as int, percents(seq![a, b]));
            &&& r.1.y == area.y + from
            &&& r.1.height == to - from
        },
{
    let mut parts: Vec<Part> = Vec::new();
    parts.push(a);
    parts.push(b);
    parts.push(c);
    let v = split(area, Axis::Rows, &parts, 0);
    assert(parts@ =~= seq![a, b, c]);
    assert(parts@.take(1) =~= seq![a]);
    assert(parts@.take(2) =~= seq![a, b]);
    assert(v@[1 - 1] == v@[0] && v@[2 - 1] == v@[1]);
    (v[0], v[1], v[2])
}

/// The heading of a column, the rule below it, and its cards, in a column that is
/// high enough for the first two.
pub open spec fn column_parts(column: Rect) -> (Rect, Rect, Rect) {
    let inner = column_inner(column);
    (
        Rect { height: 1, ..inner },
        Rect { y: (inner.y + 1) as u16, height: 1, ..inner },
        Rect { y: (inner.y + 2) as u16, height: (inner.height - 2) as u16, ..inner },
    )
}

/// The three parts of a column: its heading, the rule below it, and its cards.
pub fn column_rows(column: Rect) -> (r: (Rect, Rect, Rect))
    requires
        column.right() <= u16::MAX,
        column.bottom() <= u16::MAX,
    ensures
        r.0.within(column_inner(column)) && r.1.within(column_inner(column)) && r.2.within(
            column_inner(column),
        ),
        r.0.width == minus(column.width, 2),
        r.1.width == minus(column.width, 2),
        r.2.width == minus(column.width, 2),
        column.height >= HEAD_ROWS ==> r == column_parts(column),
        column.height < HEAD_ROWS ==> r.2.height == 0,
{
    let inner = Rect {
        x: add_cells(column.x, PAD),
        y: column.y,
        width: less_cells(column.width, 2),
        height: column.height,
    };
    let r = split_rows(inner, Part::Length(1), Part::Length(1), Part::AtLeast(0));
    proof {
        let parts = seq![Part::Length(1), Part::Length(1), Part::AtLeast(0)];
        reveal_with_fuel(lengths, 4);
        assert(parts.drop_last() =~= seq![Part::Length(1), Part::Length(1)]);
        assert(parts.drop_last().drop_last() =~= seq![Part::Length(1)]);
        assert(parts.drop_last().drop_last().drop_last() =~= Seq::<Part>::empty());
        assert(lengths(parts) == 2);
        assert(grows_at(parts, 2));
        assert(inner.height >= 2 ==> stacked(
            inner,
            Part::Length(1),
            Part::Length(1),
            Part::AtLeast(0),
            2,
            r,
        ));
        assert(inner.height < 2 ==> flattened(2, r));
    }
    r
}

/// The four equal columns in a part of the screen: as high as it, with blank cells
/// between them, each beginning and ending at the next whole cell. A part that the
/// blank cells alone fill has columns without a width.
pub open spec fn columns_in(content: Rect) -> Seq<Rect> {
    let room = content.width - 3 * GUTTER;
    Seq::new(
        4,
        |i: int|
            if room >= 0 {
                Rect {
                    x: (content.x + GUTTER * i + quarter(room, i)) as u16,
                    width: (quarter(room, i + 1) - quarter(room, i)) as u16,
                    ..content
                }
            } else {
                Rect { width: 0, ..content }
            },
    )
}

/// What of a screen the columns have: what the filter and the rows at the bottom
/// leave.
pub open spec fn content_of(area: Rect) -> Rect {
    if area.height >= FILTER_ROWS + FOOTER_ROWS {
        Rect {
            y: (area.y + FILTER_ROWS) as u16,
            height: (area.height - FILTER_ROWS - FOOTER_ROWS) as u16,
            ..area
        }
    } else {
        Rect { height: 0, ..area }
    }
}

/// The columns of a screen. One that is too low for them has columns without a
/// height.
pub open spec fn columns_of(area: Rect) -> Seq<Rect> {
    columns_in(content_of(area))
}

/// The columns are the four equal ones in a part of the screen. Where that is too
/// narrow or too low for them they have no cells, and where they stand then is
/// left open.
pub open spec fn columns_fill(columns: Seq<Rect>, content: Rect) -> bool {
    forall|i: int|
        0 <= i < 4 ==> {
            &&& (#[trigger] columns[i]).width == columns_in(content)[i].width
            &&& columns[i].height == content.height
            &&& content.width >= 3 * GUTTER ==> columns[i].x == columns_in(content)[i].x
        }
}

/// The quarters of a width lie within it, one behind the other.
proof fn lemma_quarters(room: int)
    requires
        room >= 0,
    ensures
        quarter(room, 0) == 0,
        quarter(room, 4) == room,
        quarter(room, 0) <= quarter(room, 1) <= quarter(room, 2) <= quarter(room, 3) <= quarter(room, 4),
{
}

/// The columns are equal, but for the cell to which each is rounded; each begins
/// behind the one before it and the blank cells, and together they fill their part
/// of the screen.
pub proof fn law_columns_are_equal(content: Rect)
    requires
        content.right() <= u16::MAX,
        content.width >= 3 * GUTTER,
    ensures
        ({
            let c = columns_in(content);
            let even = (content.width - 3 * GUTTER) / 4;
            &&& forall|i: int| 0 <= i < 4 ==> even <= (#[trigger] c[i]).width <= even + 1
            &&& c[0].x == content.x
            &&& c[1].x == c[0].right() + GUTTER
            &&& c[2].x == c[1].right() + GUTTER
            &&& c[3].x == c[2].right() + GUTTER
            &&& c[3].right() == content.right()
        }),
{
    lemma_quarters(content.width - 3 * GUTTER);
    let c = columns_in(content);
    let even = (content.width - 3 * GUTTER) / 4;
    assert forall|i: int| 0 <= i < 4 implies even <= (#[trigger] c[i]).width <= even + 1 by {
        assert(i == 0 || i == 1 || i == 2 || i == 3);
    }
}

/// The four columns of the board: beside each other, below the filter and above
/// the two rows at the bottom.
pub fn column_layout(content: Rect) -> (r: [Rect; 4])
    requires
        content.right() <= u16::MAX,
        content.bottom() <= u16::MAX,
    ensures
        forall|i: int| 0 <= i < 4 ==> (#[trigger] r@[i]).within(content),
        forall|i: int|
            0 <= i < 4 ==> (#[trigger] r@[i]).y == content.y && r@[i].height == content.height,
        columns_fill(r@, content),
        content.width >= 3 * GUTTER ==> r@ == columns_in(content),
{
    let mut parts: Vec<Part> = Vec::new();
    parts.push(Part::Ratio(1, 4));
    parts.push(Part::Ratio(1, 4));
    parts.push(Part::Ratio(1, 4));
    parts.push(Part::Ratio(1, 4));
    let v = split(content, Axis::Columns, &parts, GUTTER);
    let r = [v[0], v[1], v[2], v[3]];
    proof {
        assert(quarters(parts@));
        let room = content.width - 3 * GUTTER;
        if room >= 0 {
            lemma_quarters(room);
        }
        assert forall|i: int| 0 <= i < 4 implies {
            &&& (#[trigger] r@[i]).width == columns_in(content)[i].width
            &&& room >= 0 ==> r@[i] == columns_in(content)[i]
        } by {
            assert(r@[i] == v@[i]);
            assert(i == 0 || i == 1 || i == 2 || i == 3);
        }
        if room >= 0 {
            assert(r@ =~= columns_in(content));
        }
    }
    r
}

/// The parts lie on the screen as they should: the filter over the columns, the
/// columns beside each other, the heading, the rule and the cards of each column
/// below each other, and the key hints at the bottom. A screen that is too small
/// for all of them still holds what is drawn.
pub open spec fn laid_out(g: Geometry) -> bool {
    &&& g.filter.within(g.area) && g.filter.x == g.area.x && g.filter.width == g.area.width
    &&& forall|i: int| 0 <= i < 4 ==> (#[trigger] g.columns@[i]).within(g.area)
    &&& forall|i: int, j: int|
        0 <= i < 4 && 0 <= j < 4 ==> (#[trigger] g.columns@[i]).y == (#[trigger] g.columns@[j]).y
            && g.columns@[i].height == g.columns@[j].height
    &&& forall|i: int|
        0 <= i < 4 ==> (#[trigger] g.heads@[i]).within(column_inner(g.columns@[i])) && g.heads@[i].width
            == minus(g.columns@[i].width, 2)
    &&& forall|i: int|
        0 <= i < 4 ==> (#[trigger] g.rules@[i]).within(column_inner(g.columns@[i])) && g.rules@[i].width
            == minus(g.columns@[i].width, 2)
    &&& forall|i: int|
        0 <= i < 4 ==> (#[trigger] g.cards@[i]).within(column_inner(g.columns@[i])) && g.cards@[i].width
            == minus(g.columns@[i].width, 2)
    &&& forall|i: int|
        0 <= i < 4 && g.columns@[i].height >= HEAD_ROWS ==> column_parts(#[trigger] g.columns@[i]) == (
            g.heads@[i],
            g.rules@[i],
            g.cards@[i],
        )
    &&& forall|i: int|
        0 <= i < 4 && g.columns@[i].height < HEAD_ROWS ==> (#[trigger] g.cards@[i]).height == 0
    &&& columns_fill(g.columns@, content_of(g.area))
    &&& exists|b: Rect| #[trigger] footer_in(b) == g.footer && b.within(g.area) && b.x == g.area.x && b.width
        == g.area.width
    &&& g.area.height >= FILTER_ROWS + FOOTER_ROWS ==> {
        &&& g.filter == Rect { height: FILTER_ROWS, ..g.area }
        &&& forall|i: int| 0 <= i < 4 ==> (#[trigger] g.columns@[i]).y == g.area.y + FILTER_ROWS
    }
    &&& g.area.height >= FOOTER_ROWS ==> g.footer == footer_in(
        Rect { y: (g.area.bottom() - FOOTER_ROWS) as u16, height: FOOTER_ROWS, ..g.area },
    )
}

/// The filter's strip, and what the columns have.
fn upper_parts(area: Rect) -> (r: (Rect, Rect))
    requires
        area.right() <= u16::MAX,
        area.bottom() <= u16::MAX,
    ensures
        r.0.within(area) && r.0.x == area.x && r.0.width == area.width,
        r.1.within(area) && r.1.x == area.x && r.1.width == area.width,
        r.1.height == content_of(area).height,
        area.height >= FILTER_ROWS + FOOTER_ROWS ==> r.0 == (Rect { height: FILTER_ROWS, ..area }) && r.1
            == content_of(area),
{
    let r = split_rows(
        area,
        Part::Length(FILTER_ROWS),
        Part::AtLeast(0),
        Part::Length(FOOTER_ROWS),
    );
    proof {
        let parts = seq![Part::Length(FILTER_ROWS), Part::AtLeast(0), Part::Length(FOOTER_ROWS)];
        reveal_with_fuel(lengths, 4);
        assert(parts.drop_last() =~= seq![Part::Length(FILTER_ROWS), Part::AtLeast(0)]);
        assert(parts.drop_last().drop_last() =~= seq![Part::Length(FILTER_ROWS)]);
        assert(parts.drop_last().drop_last().drop_last() =~= Seq::<Part>::empty());
        assert(lengths(parts) == FILTER_ROWS + FOOTER_ROWS);
        assert(grows_at(parts, 1));
        assert(area.height >= FILTER_ROWS + FOOTER_ROWS ==> stacked(
            area,
            Part::Length(FILTER_ROWS),
            Part::AtLeast(0),
            Part::Length(FOOTER_ROWS),
            1,
            r,
        ));
        assert(area.height < FILTER_ROWS + FOOTER_ROWS ==> flattened(1, r));
    }
    (r.0, r.1)
}

/// The rows at the bottom.
fn bottom_rows(area: Rect) -> (r: Rect)
    requires
        area.right() <= u16::MAX,
        area.bottom() <= u16::MAX,
    ensures
        r.within(area) && r.x == area.x && r.width == area.width,
        area.height >= FOOTER_ROWS ==> r == (Rect {
            y: (area.bottom() - FOOTER_ROWS) as u16,
            height: FOOTER_ROWS,
            ..area
        }),
{
    let mut parts: Vec<Part> = Vec::new();
    parts.push(Part::AtLeast(0));
    parts.push(Part::Length(FOOTER_ROWS));
    let v = split(area, Axis::Rows, &parts, 0);
    proof {
        reveal_with_fuel(lengths, 3);
        assert(parts@ =~= seq![Part::AtLeast(0), Part::Length(FOOTER_ROWS)]);
        assert(parts@.drop_last() =~= seq![Part::AtLeast(0)]);
        assert(parts@.drop_last().drop_last() =~= Seq::<Part>::empty());
        assert(grows_at(parts@, 0));
        assert(v@[1 - 1] == v@[0]);
    }
    v[1]
}

/// Where the parts of the board lie on a screen.
pub fn geometry(area: Rect) -> (g: Geometry)
    requires
        area.right() <= u16::MAX,
        area.bottom() <= u16::MAX,
    ensures
        g.area == area,
        laid_out(g),
        area.width >= 3 * GUTTER && area.height >= FILTER_ROWS + FOOTER_ROWS ==> g.columns@ == columns_of(
            area,
        ),
{
    let (filter, content) = upper_parts(area);
    let columns = column_layout(content);
    assert(columns@[0].within(content) && columns@[1].within(content) && columns@[2].within(content)
        && columns@[3].within(content));
    let (h0, r0, c0) = column_rows(columns[0]);
    let (h1, r1, c1) = column_rows(columns[1]);
    let (h2, r2, c2) = column_rows(columns[2]);
    let (h3, r3, c3) = column_rows(columns[3]);
    let b = bottom_rows(area);
    let footer = Rect {
        x: add_cells(b.x, PAD),
        y: add_cells(b.y, 1),
        width: less_cells(b.width, 2),
        height: 1,
    };
    assert(footer_in(b) == footer);
    let g = Geometry {
        area,
        filter,
        columns,
        heads: [h0, h1, h2, h3],
        rules: [r0, r1, r2, r3],
        cards: [c0, c1, c2, c3],
        footer,
    };
    assert(columns_fill(g.columns@, content_of(area))) by {
        assert forall|i: int| 0 <= i < 4 implies {
            &&& (#[trigger] columns@[i]).width == columns_in(content_of(area))[i].width
            &&& columns@[i].height == content_of(area).height
            &&& area.width >= 3 * GUTTER ==> columns@[i].x == columns_in(content_of(area))[i].x
        } by {
            assert(columns@[i].width == columns_in(content)[i].width);
        }
    }
    g
}

/// A cell lies on the cards of a column: below its heading.
pub open spec fn on_cards(r: Rect, col: u16, row: u16) -> bool {
    r.spans(col) && r.y + HEAD_ROWS <= row < r.bottom()
}

/// The card under a cell, by its place in the selection: the first column that
/// the cell lies on decides, by how far it is scrolled and how far down the cell
/// lies; a cell below its last card hits nothing.
pub open spec fn hit_from(
    columns: Seq<Rect>,
    counts: Seq<usize>,
    scroll: Seq<usize>,
    col: u16,
    row: u16,
    i: int,
) -> Option<int>
    decreases 4 - i,
{
    if i >= 4 {
        None
    } else if on_cards(columns[i], col, row) {
        let item = scroll[i] + (row - columns[i].y - HEAD_ROWS) / (CARD_ROWS as int);
        if item < counts[i] {
            Some(offset(counts, i) + item)
        } else {
            None
        }
    } else {
        hit_from(columns, counts, scroll, col, row, i + 1)
    }
}

/// The card under a cell.
pub open spec fn card_at(
    columns: Seq<Rect>,
    counts: Seq<usize>,
    scroll: Seq<usize>,
    col: u16,
    row: u16,
) -> Option<int> {
    hit_from(columns, counts, scroll, col, row, 0)
}

/// What is drawn is what is hit: every cell of a card that a column shows hits
/// that card.
pub proof fn law_cards_are_hit_where_they_are_drawn(
    g: Geometry,
    counts: Seq<usize>,
    scroll: Seq<usize>,
    c: int,
    item: int,
    col: u16,
    row: u16,
)
    requires
        laid_out(g),
        g.area.right() <= u16::MAX,
        g.area.bottom() <= u16::MAX,
        g.area.width >= 3 * GUTTER,
        g.area.height >= FILTER_ROWS + HEAD_ROWS + FOOTER_ROWS,
        0 <= c < 4,
        scroll[c] <= item < counts[c],
        g.cards@[c].holds(col, row),
        g.cards@[c].y + CARD_ROWS * (item - scroll[c]) <= row < g.cards@[c].y + CARD_ROWS * (item
            - scroll[c] + 1),
    ensures
        card_at(g.columns@, counts, scroll, col, row) == Some(offset(counts, c) + item),
{
    reveal_with_fuel(hit_from, 5);
    let cols = g.columns@;
    assert(cols[0].within(g.area) && cols[1].within(g.area) && cols[2].within(g.area)
        && cols[3].within(g.area));
    assert(column_parts(cols[c]) == (g.heads@[c], g.rules@[c], g.cards@[c]));
    assert(g.cards@[c].within(column_inner(cols[c])));
    assert(on_cards(cols[c], col, row));
    assert(forall|j: int| 0 <= j < 4 && j != c ==> !#[trigger] cols[j].spans(col));
    assert((row - cols[c].y - HEAD_ROWS) / (CARD_ROWS as int) == item - scroll[c]);
}

/// The card under a cell, on columns that are where they are: its place in the
/// selection. `scroll` holds the first card that each column shows.
pub fn hit_in(columns: &[Rect; 4], counts: &[usize; 4], scroll: &[usize; 4], col: u16, row: u16) -> (r: Option<usize>)
    requires
        total(counts@) <= usize::MAX,
    ensures
        match r {
            Some(k) => card_at(columns@, counts@, scroll@, col, row) == Some(k as int),
            None => card_at(columns@, counts@, scroll@, col, row) is None,
        },
{
    proof {
        lemma_offsets(counts@);
    }
    let mut start: usize = 0;
    let mut i: usize = 0;
    while i < 4
        invariant
            i <= 4,
            total(counts@) <= usize::MAX,
            start == offset(counts@, i as int),
            card_at(columns@, counts@, scroll@, col, row) == hit_from(
                columns@,
                counts@,
                scroll@,
                col,
                row,
                i as int,
            ),
        decreases 4 - i,
    {
        proof {
            lemma_offsets(counts@);
        }
        let r = columns[i];
        let top: u32 = r.y as u32 + HEAD_ROWS as u32;
        if spans(r, col) && row as u32 >= top && (row as u32) < r.y as u32 + r.height as u32 {
            let k: usize = ((row as u32 - top) / CARD_ROWS as u32) as usize;
            if scroll[i] < counts[i] && k < counts[i] - scroll[i] {
                return Some(start + (scroll[i] + k));
            } else {
                return None;
            }
        }
        if i < 3 {
            start = start + counts[i];
            i = i + 1;
        } else {
            assert(hit_from(columns@, counts@, scroll@, col, row, 4) is None);
            return None;
        }
    }
    None
}

/// A cell that hits a card hits one of the selection.
pub proof fn law_hit_is_selectable(columns: Seq<Rect>, counts: Seq<usize>, scroll: Seq<usize>, col: u16, row: u16)
    requires
        columns.len() == 4,
        counts.len() == 4,
        scroll.len() == 4,
    ensures
        card_at(columns, counts, scroll, col, row) matches Some(k) ==> 0 <= k < total(counts),
{
    lemma_offsets(counts);
    reveal_with_fuel(hit_from, 5);
}

/// The column of the screen that a column of cells crosses.
pub open spec fn column_from(columns: Seq<Rect>, col: u16, i: int) -> Option<Column>
    decreases 4 - i,
{
    if i >= 4 {
        None
    } else if columns[i].spans(col) {
        Some(Column::ALL[i])
    } else {
        column_from(columns, col, i + 1)
    }
}

/// The column under a cell, by its horizontal place alone.
pub fn column_under(columns: &[Rect; 4], col: u16) -> (r: Option<Column>)
    ensures
        r == column_from(columns@, col, 0),
{
    let all = Column::ALL;
    let mut i: usize = 0;
    while i < 4
        invariant
            i <= 4,
            all@ == Column::ALL@,
            column_from(columns@, col, 0) == column_from(columns@, col, i as int),
        decreases 4 - i,
    {
        if spans(columns[i], col) {
            return Some(all[i]);
        }
        i = i + 1;
    }
    None
}

/// How many cards each column of a board has.
pub open spec fn counts_of(b: BoardView) -> Seq<usize> {
    Seq::new(4, |i: int| b.column(Column::ALL[i]).len() as usize)
}

/// On columns that are those of a screen, a cell hits what it hits on the
/// screen's.
proof fn lemma_same_hits(g: Geometry, counts: Seq<usize>, scroll: Seq<usize>, col: u16, row: u16)
    requires
        laid_out(g),
    ensures
        card_at(g.columns@, counts, scroll, col, row) == card_at(columns_of(g.area), counts, scroll, col, row),
        column_from(g.columns@, col, 0) == column_from(columns_of(g.area), col, 0),
{
    reveal_with_fuel(hit_from, 5);
    reveal_with_fuel(column_from, 5);
    let cols = g.columns@;
    let of = columns_of(g.area);
    assert forall|i: int| 0 <= i < 4 implies {
        &&& (#[trigger] cols[i]).spans(col) == of[i].spans(col)
        &&& on_cards(cols[i], col, row) == on_cards(of[i], col, row)
        &&& on_cards(cols[i], col, row) ==> cols[i].y == of[i].y
    } by {
        assert(cols[i].width == of[i].width);
    }
    assert(cols[0].spans(col) == of[0].spans(col));
    assert(cols[1].spans(col) == of[1].spans(col));
    assert(cols[2].spans(col) == of[2].spans(col));
    assert(cols[3].spans(col) == of[3].spans(col));
}

/// The card under a cell of a screen, by its place in the selection.
pub fn hit_test(area: Rect, board: &Board, col: u16, row: u16, scroll: [usize; 4]) -> (r: Option<usize>)
    requires
        area.right() <= u16::MAX,
        area.bottom() <= u16::MAX,
    ensures
        card_at(columns_of(area), counts_of(board@), scroll@, col, row) == (match r {
            Some(k) => Some(k as int),
            None => None,
        }),
        r matches Some(k) ==> k < board@.selectable().len(),
{
    let g = geometry(area);
    let sel = board.selectable();
    let n: usize = sel.len();
    let counts = board.column_counts();
    proof {
        lemma_board_total(board, sel@, counts);
        assert(total(counts@) == n);
        law_hit_is_selectable(g.columns@, counts@, scroll@, col, row);
        assert(counts@ =~= counts_of(board@));
        lemma_same_hits(g, counts@, scroll@, col, row);
    }
    hit_in(&g.columns, &counts, &scroll, col, row)
}

/// The counts of a board's columns add up to its selection.
pub proof fn lemma_board_total(board: &Board, sel: Seq<&Agent>, counts: [usize; 4])
    requires
        agent_refs(sel) == board@.selectable(),
        forall|i: int| 0 <= i < 4 ==> (#[trigger] counts[i]) == board@.column(Column::ALL[i]).len(),
    ensures
        total(counts@) == sel.len(),
        sel.len() == board@.selectable().len(),
{
    lemma_offsets(counts@);
    law_counts_add_up(board@);
    assert(agent_refs(sel).len() == sel.len());
    assert(counts[0] == board@.column(Column::ALL[0]).len());
    assert(counts[1] == board@.column(Column::ALL[1]).len());
    assert(counts[2] == board@.column(Column::ALL[2]).len());
    assert(counts[3] == board@.column(Column::ALL[3]).len());
}

/// The column under a cell of a screen.
pub fn column_at(area: Rect, col: u16) -> (r: Option<Column>)
    requires
        area.right() <= u16::MAX,
        area.bottom() <= u16::MAX,
    ensures
        r == column_from(columns_of(area), col, 0),
{
    let g = geometry(area);
    proof {
        lemma_same_hits(g, Seq::empty(), Seq::empty(), col, 0);
    }
    column_under(&g.columns, col)
}

/// The width of the context menu: its widest entry, a space at either side, and
/// the border.
pub open spec fn menu_width() -> u16 {
    13
}

/// The height of the context menu: one row for each entry, and the border.
pub open spec fn menu_height() -> u16 {
    7
}

/// The context menu at a cell, moved so that it ends within the screen.
pub open spec fn menu_at(area: Rect, anchor: (u16, u16)) -> Rect {
    let last_x = plus(area.x, minus(area.width, menu_width()));
    let last_y = plus(area.y, minus(area.height, menu_height()));
    Rect {
        x: if anchor.0 <= last_x {
            anchor.0
        } else {
            last_x
        },
        y: if anchor.1 <= last_y {
            anchor.1
        } else {
            last_y
        },
        width: menu_width(),
        height: menu_height(),
    }
}

fn widest_entry() -> (r: usize)
    ensures
        r == 9,
        forall|i: int| 0 <= i < 5 ==> (#[trigger] MenuAction::ALL[i]).word().len() <= r,
        exists|i: int| 0 <= i < 5 && (#[trigger] MenuAction::ALL[i]).word().len() == r,
{
    proof {
        reveal_strlit("go");
        reveal_strlit("msg");
        reveal_strlit("new");
        reveal_strlit("hide/show");
        reveal_strlit("delete");
    }
    let all = MenuAction::ALL;
    let mut w: usize = 0;
    let mut i: usize = 0;
    assert(MenuAction::ALL[0].word().len() == 2);
    assert(MenuAction::ALL[1].word().len() == 3);
    assert(MenuAction::ALL[2].word().len() == 3);
    assert(MenuAction::ALL[3].word().len() == 9);
    assert(MenuAction::ALL[4].word().len() == 6);
    while i < 5
        invariant
            i <= 5,
            all@ == MenuAction::ALL@,
            MenuAction::ALL[0].word().len() == 2,
            MenuAction::ALL[1].word().len() == 3,
            MenuAction::ALL[2].word().len() == 3,
            MenuAction::ALL[3].word().len() == 9,
            MenuAction::ALL[4].word().len() == 6,
            w <= 9,
            i > 3 ==> w == 9,
        decreases 5 - i,
    {
        let n = char_count(all[i].label());
        assert(all@[i as int] == MenuAction::ALL[i as int]);
        assert(i == 0 || i == 1 || i == 2 || i == 3 || i == 4);
        if n > w {
            w = n;
        }
        i = i + 1;
    }
    w
}

/// Where the context menu lies that was opened at a cell: with its corner there,
/// moved left and up so far that it ends within the screen. It is as wide as its
/// widest entry asks for.
pub fn menu_rect(area: Rect, anchor: (u16, u16)) -> (r: Rect)
    ensures
        r == menu_at(area, anchor),
{
    let width: u16 = widest_entry() as u16 + 4;
    let height: u16 = 7;
    let last_x = add_cells(area.x, less_cells(area.width, width));
    let last_y = add_cells(area.y, less_cells(area.height, height));
    let x: u16 = if anchor.0 <= last_x {
        anchor.0
    } else {
        last_x
    };
    let y: u16 = if anchor.1 <= last_y {
        anchor.1
    } else {
        last_y
    };
    Rect { x, y, width, height }
}

/// The menu lies within the screen wherever it is opened, unless the screen is
/// too small for it.
pub proof fn law_menu_stays_on_screen(area: Rect, anchor: (u16, u16))
    requires
        area.right() <= u16::MAX,
        area.bottom() <= u16::MAX,
        area.holds(anchor.0, anchor.1),
        area.width >= menu_width(),
        area.height >= menu_height(),
    ensures
        menu_at(area, anchor).within(area),
{
}

/// The entry of a menu under a cell; its border holds none.
pub open spec fn entry_at(menu: Rect, col: u16, row: u16) -> Option<int> {
    if menu.spans(col) && menu.y < row && row < menu.bottom() - 1 {
        Some(row - menu.y - 1)
    } else {
        None
    }
}

/// The entry of a menu under a cell.
pub fn menu_hit_test(menu: Rect, col: u16, row: u16) -> (r: Option<usize>)
    ensures
        match r {
            Some(k) => entry_at(menu, col, row) == Some(k as int),
            None => entry_at(menu, col, row) is None,
        },
{
    if spans(menu, col) && row > menu.y && (row as u32 + 1) < menu.y as u32 + menu.height as u32 {
        Some((row - menu.y - 1) as usize)
    } else {
        None
    }
}

/// A cell of the menu hits an entry that there is.
pub proof fn law_menu_hit_is_an_entry(area: Rect, anchor: (u16, u16), col: u16, row: u16)
    ensures
        entry_at(menu_at(area, anchor), col, row) matches Some(k) ==> 0 <= k < MenuAction::ALL@.len(),
{
}

/// The filter's field: seven tenths of the strip, thirty cells or the whole
/// strip where that is more, in its middle and one row down.
pub open spec fn field_in(strip: Rect) -> Rect {
    let seven = strip.width * 7 / 10;
    let least = if strip.width < 30 {
        strip.width as int
    } else {
        30
    };
    let w = if seven < least {
        least
    } else {
        seven
    };
    Rect {
        x: plus(strip.x, (minus(strip.width, w as u16) / 2) as u16),
        y: plus(strip.y, 1),
        width: w as u16,
        height: 2,
    }
}

/// The filter's field in its strip.
pub fn filter_field(strip: Rect) -> (r: Rect)
    ensures
        r == field_in(strip),
        r.width <= strip.width,
{
    let seven: u16 = (strip.width as u32 * 7 / 10) as u16;
    let least: u16 = if strip.width < 30 {
        strip.width
    } else {
        30
    };
    let w: u16 = if seven < least {
        least
    } else {
        seven
    };
    Rect {
        x: add_cells(strip.x, less_cells(strip.width, w) / 2),
        y: add_cells(strip.y, 1),
        width: w,
        height: 2,
    }
}

/// Whether a cell lies on the filter's field.
pub fn filter_hit_test(g: &Geometry, col: u16, row: u16) -> (r: bool)
    ensures
        r == field_in(g.filter).holds(col, row),
{
    holds(filter_field(g.filter), col, row)
}

/// The part in the middle of a screen that is so many percent of it wide and
/// high.
pub open spec fn middle_of(area: Rect, pw: u16, ph: u16) -> Rect {
    let (left, top) = ((100 - pw) / 2, (100 - ph) / 2);
    let (x0, x1) = (share(area.width as int, left), share(area.width as int, left + pw));
    let (y0, y1) = (share(area.height as int, top), share(area.height as int, top + ph));
    Rect {
        x: (area.x + x0) as u16,
        y: (area.y + y0) as u16,
        width: (x1 - x0) as u16,
        height: (y1 - y0) as u16,
    }
}

/// The part in the middle of a screen that is so many percent of it wide and
/// high.
pub fn centered(area: Rect, pw: u16, ph: u16) -> (r: Rect)
    requires
        area.right() <= u16::MAX,
        area.bottom() <= u16::MAX,
        pw <= 100,
        ph <= 100,
    ensures
        r == middle_of(area, pw, ph),
        r.within(area),
{
    let top: u16 = (100 - ph) / 2;
    let left: u16 = (100 - pw) / 2;
    let (_, middle, _) = split_rows(area, Part::Percent(top), Part::Percent(ph), Part::Percent(top));
    let mut parts: Vec<Part> = Vec::new();
    parts.push(Part::Percent(left));
    parts.push(Part::Percent(pw));
    parts.push(Part::Percent(left));
    let v = split(middle, Axis::Columns, &parts, 0);
    proof {
        lemma_three_shares(top, ph);
        lemma_three_shares(left, pw);
        assert(parts@ =~= seq![Part::Percent(left), Part::Percent(pw), Part::Percent(left)]);
        assert(parts@.take(1) =~= seq![Part::Percent(left)]);
        assert(parts@.take(2) =~= seq![Part::Percent(left), Part::Percent(pw)]);
    }
    v[1]
}

proof fn lemma_three_shares(side: u16, mid: u16)
    requires
        2 * side + mid <= 100,
    ensures
        percents(seq![Part::Percent(side)]) == side,
        percents(seq![Part::Percent(side), Part::Percent(mid)]) == side + mid,
        shared_out(seq![Part::Percent(side), Part::Percent(mid), Part::Percent(side)]),
{
    reveal_with_fuel(percents, 4);
    let p = seq![Part::Percent(side), Part::Percent(mid), Part::Percent(side)];
    assert(p.drop_last() =~= seq![Part::Percent(side), Part::Percent(mid)]);
    assert(seq![Part::Percent(side), Part::Percent(mid)].drop_last() =~= seq![Part::Percent(side)]);
    assert(seq![Part::Percent(side)].drop_last() =~= Seq::<Part>::empty());
}

/// What is hit is what is drawn there: a hit lies on the cards of a column, on the
/// one that the scrolling puts under it.
pub proof fn law_hit_lies_on_its_card(
    columns: Seq<Rect>,
    counts: Seq<usize>,
    scroll: Seq<usize>,
    col: u16,
    row: u16,
) -> (c: int)
    requires
        columns.len() == 4,
        counts.len() == 4,
        scroll.len() == 4,
        card_at(columns, counts, scroll, col, row) is Some,
    ensures
        0 <= c < 4,
        columns[c].spans(col),
        columns[c].y + HEAD_ROWS <= row < columns[c].bottom(),
        ({
            let item = card_at(columns, counts, scroll, col, row)->0 - offset(counts, c);
            let top = columns[c].y + HEAD_ROWS + CARD_ROWS * (item - scroll[c]);
            &&& scroll[c] <= item < counts[c]
            &&& top <= row < top + CARD_ROWS
        }),
{
    lemma_hit_from(columns, counts, scroll, col, row, 0)
}

proof fn lemma_hit_from(
    columns: Seq<Rect>,
    counts: Seq<usize>,
    scroll: Seq<usize>,
    col: u16,
    row: u16,
    i: int,
) -> (c: int)
    requires
        0 <= i,
        columns.len() == 4,
        counts.len() == 4,
        scroll.len() == 4,
        hit_from(columns, counts, scroll, col, row, i) is Some,
    ensures
        i <= c < 4,
        on_cards(columns[c], col, row),
        ({
            let item = hit_from(columns, counts, scroll, col, row, i)->0 - offset(counts, c);
            let top = columns[c].y + HEAD_ROWS + CARD_ROWS * (item - scroll[c]);
            &&& scroll[c] <= item < counts[c]
            &&& top <= row < top + CARD_ROWS
        }),
    decreases 4 - i,
{
    if on_cards(columns[i], col, row) {
        i
    } else {
        lemma_hit_from(columns, counts, scroll, col, row, i + 1)
    }
}

/// The column under a place is one that spans it, the leftmost, and there is none
/// only where none does.
pub proof fn law_column_under_a_place_spans_it(columns: Seq<Rect>, col: u16, k: int)
    ensures
        0 <= k < 4 && columns[k].spans(col) && (forall|j: int|
            0 <= j < k ==> !(#[trigger] columns[j]).spans(col)) ==> column_from(columns, col, 0) == Some(
            Column::ALL[k],
        ),
        (forall|j: int| 0 <= j < 4 ==> !(#[trigger] columns[j]).spans(col)) ==> column_from(
            columns,
            col,
            0,
        ) is None,
{
    reveal_with_fuel(column_from, 5);
    assert(columns[0] == columns[0] && columns[1] == columns[1] && columns[2] == columns[2]
        && columns[3] == columns[3]);
}

/// The entries of a menu stand one to a row inside its frame, and its border is
/// no entry.
pub proof fn law_menu_entries_stand_in_their_rows(menu: Rect, col: u16, row: u16, i: int)
    ensures
        entry_at(menu, col, row) == Some(i) <==> menu.x <= col < menu.x + menu.width && row == menu.y
            + 1 + i && 0 <= i < menu.height - 2,
{
}

/// The field of the filter lies inside its strip, in the middle to within a cell,
/// and takes seven tenths of it, or thirty cells where that is more and there is
/// room.
pub proof fn law_filter_field_lies_in_the_middle(strip: Rect)
    requires
        strip.right() <= u16::MAX,
        strip.y + 1 <= u16::MAX,
    ensures
        ({
            let f = field_in(strip);
            let left = f.x - strip.x;
            let right = strip.right() - f.right();
            &&& left >= 0
            &&& left <= right <= left + 1
            &&& 10 * f.width >= 7 * strip.width - 9
            &&& f.width >= 30 || f.width == strip.width
            &&& f.width > 30 ==> 10 * f.width <= 7 * strip.width
            &&& f.y == strip.y + 1
            &&& f.height == 2
        }),
{
}

/// Cells are added and taken away within what a screen can count.
pub proof fn law_cells_stay_in_range(a: u16, b: u16)
    ensures
        a + b <= u16::MAX ==> plus(a, b) == a + b,
        a + b > u16::MAX ==> plus(a, b) == u16::MAX,
        a >= b ==> minus(a, b) == a - b,
        a < b ==> minus(a, b) == 0,
{
}

/// A popup takes its share of the screen, to within a cell, and stands in the
/// middle, to within a cell, where the rest can be halved.
pub proof fn law_popup_stands_in_the_middle(area: Rect, pw: u16, ph: u16)
    requires
        area.right() <= u16::MAX,
        area.bottom() <= u16::MAX,
        pw <= 100,
        ph <= 100,
        pw % 2 == 0,
        ph % 2 == 0,
    ensures
        ({
            let m = middle_of(area, pw, ph);
            let left = m.x - area.x;
            let right = area.right() - m.right();
            let top = m.y - area.y;
            let bottom = area.bottom() - m.bottom();
            &&& right <= left <= right + 1
            &&& bottom <= top <= bottom + 1
            &&& pw * area.width - 100 <= 100 * m.width <= pw * area.width + 100
            &&& ph * area.height - 100 <= 100 * m.height <= ph * area.height + 100
        }),
{
    lemma_middle(area.width as int, pw as int);
    lemma_middle(area.height as int, ph as int);
}

proof fn lemma_middle(w: int, p: int)
    requires
        0 <= w <= u16::MAX,
        0 <= p <= 100,
        p % 2 == 0,
    ensures
        ({
            let l = (100 - p) / 2;
            let (a, b) = (share(w, l), share(w, l + p));
            &&& 0 <= a <= b <= w
            &&& w - b <= a <= w - b + 1
            &&& p * w - 100 <= 100 * (b - a) <= p * w + 100
        }),
{
    let l = (100 - p) / 2;
    assert(2 * l + p == 100);
    assert(w * (l + p) == w * l + w * p) by (nonlinear_arith);
    assert(w * (l + p) == 100 * w - w * l) by (nonlinear_arith)
        requires
            2 * l + p == 100,
    ;
    assert(0 <= w * l) by (nonlinear_arith)
        requires
            0 <= w,
            0 <= l,
    ;
    assert(0 <= w * p) by (nonlinear_arith)
        requires
            0 <= w,
            0 <= p,
    ;
    assert(w * p == p * w) by (nonlinear_arith);
}

/// A column is divided from its top: a row for its heading, a row for the rule
/// below it, and all the rest for the cards, each of them a cell in from either
/// side. The hints stand on the lower of the two rows at the bottom, a cell in
/// from either side.
pub proof fn law_column_is_divided_from_its_top(column: Rect, bottom: Rect)
    requires
        column.width >= 2,
        column.height >= 2,
        column.right() <= u16::MAX,
        column.bottom() <= u16::MAX,
        bottom.width >= 2,
        bottom.right() <= u16::MAX,
        bottom.y < u16::MAX,
    ensures
        ({
            let (head, rule, cards) = column_parts(column);
            &&& head.x == column.x + 1 && head.right() == column.right() - 1
            &&& rule.x == column.x + 1 && rule.right() == column.right() - 1
            &&& cards.x == column.x + 1 && cards.right() == column.right() - 1
            &&& head.y == column.y && head.height == 1
            &&& rule.y == column.y + 1 && rule.height == 1
            &&& cards.y == column.y + 2 && cards.bottom() == column.bottom()
            &&& footer_in(bottom).x == bottom.x + 1 && footer_in(bottom).right() == bottom.right() - 1
            &&& footer_in(bottom).y == bottom.y + 1 && footer_in(bottom).height == 1
        }),
{
}

} // verus!

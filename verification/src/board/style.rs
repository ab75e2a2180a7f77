//! What is drawn: texts in styles, and where they go.
use vstd::prelude::*;

use crate::board::geometry::{add_cells, less_cells, minus, plus, Rect};
use crate::text::{char_count, cat, first_chars, take_chars};

verus! {

/// The colours of a terminal that the board uses.
#[derive(Debug, Clone, Copy, PartialEq, Eq, Structural)]
pub enum Color {
    Black,
    Gray,
    DarkGray,
    White,
    Blue,
    Cyan,
    Green,
    Yellow,
    Magenta,
    Red,
    LightBlue,
    LightMagenta,
}

/// How a text looks.
#[derive(Debug, Clone, Copy, PartialEq, Eq, Structural)]
pub struct Style {
    pub fg: Option<Color>,
    pub bg: Option<Color>,
    pub bold: bool,
    pub dim: bool,
    pub reversed: bool,
}

/// The terminal's own look.
#[verifier::allow_in_spec]
pub fn plain() -> Style
    returns
        (Style { fg: None, bg: None, bold: false, dim: false, reversed: false }),
{
    Style { fg: None, bg: None, bold: false, dim: false, reversed: false }
}

/// What stands out.
#[verifier::allow_in_spec]
pub fn bold() -> Style
    returns
        (Style { fg: None, bg: None, bold: true, dim: false, reversed: false }),
{
    Style { fg: None, bg: None, bold: true, dim: false, reversed: false }
}

/// What stands back.
#[verifier::allow_in_spec]
pub fn dim() -> Style
    returns
        (Style { fg: None, bg: None, bold: false, dim: true, reversed: false }),
{
    Style { fg: None, bg: None, bold: false, dim: true, reversed: false }
}

/// What a cursor rests on.
#[verifier::allow_in_spec]
pub fn reversed() -> Style
    returns
        (Style { fg: None, bg: None, bold: false, dim: false, reversed: true }),
{
    Style { fg: None, bg: None, bold: false, dim: false, reversed: true }
}

/// What is there for context only.
#[verifier::allow_in_spec]
pub fn faint() -> Style
    returns
        (Style { fg: Some(Color::DarkGray), bg: None, bold: false, dim: true, reversed: false }),
{
    Style { fg: Some(Color::DarkGray), bg: None, bold: false, dim: true, reversed: false }
}

/// A piece of text in one style.
#[derive(Debug, PartialEq, Eq)]
pub struct Span {
    pub text: String,
    pub style: Style,
}

#[verifier::ext_equal]
pub struct SpanView {
    pub text: Seq<char>,
    pub style: Style,
}

impl View for Span {
    type V = SpanView;

    open spec fn view(&self) -> SpanView {
        SpanView { text: self.text@, style: self.style }
    }
}

/// A piece of text in a style.
pub fn span(text: &str, style: Style) -> (r: Span)
    ensures
        r@ == (SpanView { text: text@, style }),
{
    Span { text: text.to_owned(), style }
}

/// A line of text, by its pieces.
pub open spec fn line_view(v: Seq<Span>) -> Seq<SpanView> {
    Seq::new(v.len(), |i: int| v[i]@)
}

/// Lines of text.
pub open spec fn lines_view(v: Seq<Vec<Span>>) -> Seq<Seq<SpanView>> {
    Seq::new(v.len(), |i: int| line_view(v[i]@))
}

/// Blocks of lines.
pub open spec fn blocks_view(v: Seq<Vec<Vec<Span>>>) -> Seq<Seq<Seq<SpanView>>> {
    Seq::new(v.len(), |i: int| lines_view(v[i]@))
}

/// How many cells the pieces take.
pub open spec fn line_width(v: Seq<SpanView>) -> int
    decreases v.len(),
{
    if v.len() == 0 {
        0
    } else {
        line_width(v.drop_last()) + v.last().text.len()
    }
}

/// How many cells the pieces take, at most the largest number there is.
pub fn measure(v: &Vec<Span>) -> (r: usize)
    ensures
        line_width(line_view(v@)) <= usize::MAX ==> r == line_width(line_view(v@)),
        line_width(line_view(v@)) > usize::MAX ==> r == usize::MAX,
{
    let ghost all = line_view(v@);
    let mut n: usize = 0;
    let mut i: usize = 0;
    assert(all.take(0) =~= Seq::<SpanView>::empty());
    while i < v.len()
        invariant
            i <= v@.len(),
            all == line_view(v@),
            line_width(all.take(i as int)) <= usize::MAX ==> n == line_width(all.take(i as int)),
            line_width(all.take(i as int)) > usize::MAX ==> n == usize::MAX,
        decreases v@.len() - i,
    {
        assert(all.take(i + 1).drop_last() =~= all.take(i as int));
        assert(all.take(i + 1).last() == v@[i as int]@);
        let w = char_count(v[i].text.as_str());
        n = if n <= usize::MAX - w {
            n + w
        } else {
            usize::MAX
        };
        i = i + 1;
    }
    assert(all.take(all.len() as int) =~= all);
    n
}

/// Where a text stands in its part.
#[derive(Debug, Clone, Copy, PartialEq, Eq, Structural)]
pub enum Align {
    Left,
    Center,
    Right,
}

/// One thing to draw.
pub enum Paint {
    /// Blanks a part.
    Clear(Rect),
    /// Lines of text.
    Text { area: Rect, lines: Vec<Vec<Span>>, align: Align },
    /// A border all around, with a title in it.
    Frame { area: Rect, title: String, style: Style },
    /// A line along the bottom.
    Underline { area: Rect, style: Style },
    /// The cards of a column, one of them selected perhaps.
    Cards { column: usize, area: Rect, cards: Vec<Vec<Vec<Span>>>, selected: Option<usize> },
}

pub enum PaintView {
    Clear(Rect),
    Text { area: Rect, lines: Seq<Seq<SpanView>>, align: Align },
    Frame { area: Rect, title: Seq<char>, style: Style },
    Underline { area: Rect, style: Style },
    Cards { column: int, area: Rect, cards: Seq<Seq<Seq<SpanView>>>, selected: Option<usize> },
}

impl View for Paint {
    type V = PaintView;

    open spec fn view(&self) -> PaintView {
        match self {
            Paint::Clear(r) => PaintView::Clear(*r),
            Paint::Text { area, lines, align } => PaintView::Text {
                area: *area,
                lines: lines_view(lines@),
                align: *align,
            },
            Paint::Frame { area, title, style } => PaintView::Frame {
                area: *area,
                title: title@,
                style: *style,
            },
            Paint::Underline { area, style } => PaintView::Underline { area: *area, style: *style },
            Paint::Cards { column, area, cards, selected } => PaintView::Cards {
                column: *column as int,
                area: *area,
                cards: blocks_view(cards@),
                selected: *selected,
            },
        }
    }
}

/// What is drawn, in order.
pub open spec fn paints(v: Seq<Paint>) -> Seq<PaintView> {
    Seq::new(v.len(), |i: int| v[i]@)
}

/// One line of one piece, at the left of a part.
pub open spec fn one_piece(area: Rect, text: Seq<char>, style: Style, align: Align) -> PaintView {
    PaintView::Text { area, lines: seq![seq![SpanView { text, style }]], align }
}

/// One line of one piece.
pub fn text_paint(area: Rect, text: &str, style: Style, align: Align) -> (r: Paint)
    ensures
        r@ == one_piece(area, text@, style, align),
{
    let mut l: Vec<Span> = Vec::new();
    l.push(span(text, style));
    assert(line_view(l@) =~= seq![SpanView { text: text@, style }]);
    line_paint(area, l, align)
}

/// One line.
pub fn line_paint(area: Rect, line: Vec<Span>, align: Align) -> (r: Paint)
    ensures
        r@ == (PaintView::Text { area, lines: seq![line_view(line@)], align }),
{
    let mut lines: Vec<Vec<Span>> = Vec::new();
    lines.push(line);
    assert(lines_view(lines@) =~= seq![line_view(line@)]);
    let r = Paint::Text { area, lines, align };
    r
}

/// What a border leaves of a part.
pub open spec fn inside_frame(r: Rect) -> Rect {
    let right = plus(r.x, r.width);
    let bottom = plus(r.y, r.height);
    Rect {
        x: if plus(r.x, 1) <= right {
            plus(r.x, 1)
        } else {
            right
        },
        y: if plus(r.y, 1) <= bottom {
            plus(r.y, 1)
        } else {
            bottom
        },
        width: minus(r.width, 2),
        height: minus(r.height, 2),
    }
}

/// What a border leaves of a part.
pub fn framed(r: Rect) -> (i: Rect)
    ensures
        i == inside_frame(r),
{
    let right = add_cells(r.x, r.width);
    let bottom = add_cells(r.y, r.height);
    let x1 = add_cells(r.x, 1);
    let y1 = add_cells(r.y, 1);
    Rect {
        x: if x1 <= right {
            x1
        } else {
            right
        },
        y: if y1 <= bottom {
            y1
        } else {
            bottom
        },
        width: less_cells(r.width, 2),
        height: less_cells(r.height, 2),
    }
}

/// A text cut to a width, with an ellipsis in the last place where it was cut.
pub open spec fn truncated(s: Seq<char>, width: int) -> Seq<char> {
    if s.len() <= width {
        s
    } else if width <= 0 {
        Seq::empty()
    } else {
        first_chars(s, width - 1) + "…"@
    }
}

/// A text cut to a width, with an ellipsis in the last place where it was cut.
pub fn truncate(s: &str, width: usize) -> (r: String)
    ensures
        r@ == truncated(s@, width as int),
{
    if char_count(s) <= width {
        return s.to_owned();
    }
    if width == 0 {
        String::new()
    } else {
        let t = take_chars(s, width - 1);
        cat(t.as_str(), "…")
    }
}

/// What was cut takes no more than its width.
pub proof fn law_truncated_fits(s: Seq<char>, width: int)
    requires
        width >= 0,
    ensures
        truncated(s, width).len() <= width,
        s.len() <= width ==> truncated(s, width) == s,
        s.len() > width > 0 ==> truncated(s, width).len() == width,
{
    reveal_strlit("…");
}

/// What is cut off is the end: a text that is too long is shown from its start,
/// and ends in an ellipsis.
pub proof fn law_truncated_is_the_start(s: Seq<char>, width: int)
    requires
        s.len() > width > 0,
    ensures
        truncated(s, width).last() == '…',
        truncated(s, width).drop_last() == s.subrange(0, width - 1),
{
    reveal_strlit("…");
    assert(truncated(s, width).drop_last() =~= s.subrange(0, width - 1));
}

/// The inside of a frame is what its border leaves: a cell less on each side.
pub proof fn law_inside_of_a_frame_is_a_cell_less(r: Rect)
    requires
        r.width >= 2,
        r.height >= 2,
        r.right() <= u16::MAX,
        r.bottom() <= u16::MAX,
    ensures
        inside_frame(r).x == r.x + 1,
        inside_frame(r).y == r.y + 1,
        inside_frame(r).right() == r.right() - 1,
        inside_frame(r).bottom() == r.bottom() - 1,
{
}

} // verus!

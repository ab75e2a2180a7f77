//! What the board draws, as a list of things to draw in order.
use vstd::prelude::*;

use crate::board::card::{card, card_lines, CardMeta};
use crate::board::footer::{footer_layout, hint_spans};
use crate::board::geometry::{
    add_cells, centered, field_in, filter_field, less_cells, menu_at, menu_rect, middle_of, minus, plus, Geometry,
    Rect, PAD,
};
use crate::board::style::{
    blocks_view, bold, dim, faint, framed, inside_frame, line_paint, line_view, lines_view, one_piece, paints, plain,
    reversed, span, text_paint, truncate, truncated, Align, Color, Paint, PaintView, Span, SpanView, Style,
};
use crate::menu::MenuAction;
use crate::model::{agent_refs, Agent, AgentView, Board, BoardView, Column};
use crate::text::{cat, cat3, decimal, has_prefix, pad_right, padded, repeat_char, repeated, to_decimal};
use crate::transition::{action_for, is_destination, move_action, MoveAction};

verus! {

/// A column's heading in capitals.
pub open spec fn caption(col: Column) -> Seq<char> {
    match col {
        Column::RequiresAction => "REQUIRES ACTION"@,
        Column::Idle => "IDLE"@,
        Column::Running => "RUNNING"@,
        Column::Dormant => "DORMANT"@,
    }
}

fn caption_of(col: Column) -> (r: &'static str)
    ensures
        r@ == caption(col),
{
    match col {
        Column::RequiresAction => "REQUIRES ACTION",
        Column::Idle => "IDLE",
        Column::Running => "RUNNING",
        Column::Dormant => "DORMANT",
    }
}

/// The looks of a column's heading, its count and its rule: the dormant column
/// stands back as a whole.
pub open spec fn head_styles(col: Column) -> (Style, Style, Style) {
    if col == Column::Dormant {
        (faint(), faint(), faint())
    } else {
        (bold(), dim(), dim())
    }
}

/// The cards of a column.
pub open spec fn column_cards(agents: Seq<AgentView>, col: Column, meta: &CardMeta, width: int) -> Seq<
    Seq<Seq<SpanView>>,
> {
    agents.map_values(|a: AgentView| card_lines(a, meta.age(a, col), meta.moving(a), width))
}

/// What a column draws: its heading with its count, the rule below, and its
/// cards, which leave a cell for the mark of the selection.
pub open spec fn column_paints(
    g: Geometry,
    i: int,
    agents: Seq<AgentView>,
    selected: Option<usize>,
    meta: &CardMeta,
) -> Seq<PaintView> {
    let col = Column::ALL[i];
    let (name, count, rule) = head_styles(col);
    seq![
        PaintView::Text {
            area: g.heads@[i],
            lines: seq![
                seq![
                    SpanView { text: caption(col), style: name },
                    SpanView { text: "  "@ + decimal(agents.len()), style: count },
                ],
            ],
            align: Align::Left,
        },
        one_piece(g.rules@[i], repeated('─', g.rules@[i].width as int), rule, Align::Left),
        PaintView::Cards {
            column: i,
            area: g.cards@[i],
            cards: column_cards(agents, col, meta, minus(g.cards@[i].width, 1) as int),
            selected,
        },
    ]
}

/// What a column draws.
pub fn column(g: &Geometry, i: usize, agents: &Vec<&Agent>, selected: Option<usize>, meta: &CardMeta) -> (r: Vec<Paint>)
    requires
        i < 4,
    ensures
        paints(r@) == column_paints(*g, i as int, agent_refs(agents@), selected, meta),
{
    let all = Column::ALL;
    let col = all[i];
    let secondary = col == Column::Dormant;
    let name = if secondary {
        faint()
    } else {
        bold()
    };
    let other = if secondary {
        faint()
    } else {
        dim()
    };
    let mut head: Vec<Span> = Vec::new();
    head.push(span(caption_of(col), name));
    let n = to_decimal(agents.len() as u64);
    head.push(Span { text: cat("  ", n.as_str()), style: other });
    let rule = repeat_char('─', g.rules[i].width as usize);
    let width: usize = less_cells(g.cards[i].width, 1) as usize;
    let mut cards: Vec<Vec<Vec<Span>>> = Vec::new();
    let mut k: usize = 0;
    while k < agents.len()
        invariant
            k <= agents@.len(),
            cards@.len() == k,
            forall|j: int|
                0 <= j < k ==> lines_view((#[trigger] cards@[j])@) == card_lines(
                    agents@[j]@,
                    meta.age(agents@[j]@, col),
                    meta.moving(agents@[j]@),
                    width as int,
                ),
        decreases agents@.len() - k,
    {
        cards.push(card(agents[k], col, meta, width));
        k = k + 1;
    }
    let mut out: Vec<Paint> = Vec::new();
    let ghost hv = line_view(head@);
    out.push(line_paint(g.heads[i], head, Align::Left));
    out.push(text_paint(g.rules[i], rule.as_str(), other, Align::Left));
    let ghost cv = blocks_view(cards@);
    out.push(Paint::Cards { column: i, area: g.cards[i], cards, selected });
    proof {
        let want = column_paints(*g, i as int, agent_refs(agents@), selected, meta);
        assert(hv =~= want[0]->lines[0]);
        assert(want[0]->lines =~= seq![hv]);
        assert(cv =~= column_cards(agent_refs(agents@), col, meta, width as int));
        assert(paints(out@) =~= want);
    }
    out
}

/// The selection within a column whose cards begin at a place of the selection.
pub open spec fn row_selected(selected: usize, start: int, len: int) -> Option<usize> {
    if start <= selected < start + len {
        Some((selected - start) as usize)
    } else {
        None
    }
}

/// How many cards stand in the columns before one.
pub open spec fn cards_before(b: BoardView, i: int) -> int
    decreases i,
{
    if i <= 0 {
        0
    } else {
        cards_before(b, i - 1) + b.column(Column::ALL[i - 1]).len()
    }
}

/// What the first columns draw.
pub open spec fn columns_paints(g: Geometry, b: BoardView, selected: usize, meta: &CardMeta, n: int) -> Seq<PaintView>
    decreases n,
{
    if n <= 0 {
        Seq::empty()
    } else {
        let agents = b.column(Column::ALL[n - 1]);
        columns_paints(g, b, selected, meta, n - 1) + column_paints(
            g,
            n - 1,
            agents,
            row_selected(selected, cards_before(b, n - 1), agents.len() as int),
            meta,
        )
    }
}

/// The rule between a column and the next: in the middle of the gutter, as high
/// as the column.
pub open spec fn divider(r: Rect) -> PaintView {
    PaintView::Text {
        area: Rect { x: plus(plus(r.x, r.width), 1), y: r.y, width: 1, height: r.height },
        lines: Seq::new(r.height as nat, |i: int| seq![SpanView { text: "│"@, style: dim() }]),
        align: Align::Left,
    }
}

fn divide(r: Rect) -> (p: Paint)
    ensures
        p@ == divider(r),
{
    let area = Rect { x: add_cells(add_cells(r.x, r.width), 1), y: r.y, width: 1, height: r.height };
    let mut lines: Vec<Vec<Span>> = Vec::new();
    let mut i: u16 = 0;
    while i < r.height
        invariant
            i <= r.height,
            lines@.len() == i,
            forall|j: int|
                0 <= j < i ==> line_view((#[trigger] lines@[j])@) == seq![SpanView { text: "│"@, style: dim() }],
        decreases r.height - i,
    {
        let mut l: Vec<Span> = Vec::new();
        l.push(span("│", dim()));
        assert(line_view(l@) =~= seq![SpanView { text: "│"@, style: dim() }]);
        lines.push(l);
        i = i + 1;
    }
    assert(lines_view(lines@) =~= divider(r)->lines);
    Paint::Text { area, lines, align: Align::Left }
}

/// The look of the mark in the corner.
#[verifier::allow_in_spec]
pub fn corner() -> Style
    returns
        (Style { fg: Some(Color::DarkGray), bg: None, bold: false, dim: false, reversed: false }),
{
    Style { fg: Some(Color::DarkGray), bg: None, bold: false, dim: false, reversed: false }
}

/// What the board draws at its foot: what it has to say, if anything, in the row
/// above, the key hints, and the mark in the corner.
pub open spec fn foot_paints(footer: Rect, status: Seq<char>) -> Seq<PaintView> {
    let hints = seq![
        PaintView::Text { area: footer, lines: seq![hint_spans(8)], align: Align::Left },
        one_piece(footer, "⟦∴⟧"@, corner(), Align::Right),
    ];
    if status.len() == 0 {
        hints
    } else {
        seq![one_piece(Rect { y: minus(footer.y, 1), ..footer }, status, dim(), Align::Left)] + hints
    }
}

/// What the board draws: its columns with the rules between them, and its foot.
pub open spec fn board_paints(g: Geometry, b: BoardView, selected: usize, status: Seq<char>, meta: &CardMeta) -> Seq<
    PaintView,
> {
    columns_paints(g, b, selected, meta, 4) + seq![
        divider(g.columns@[0]),
        divider(g.columns@[1]),
        divider(g.columns@[2]),
    ] + foot_paints(g.footer, status)
}

pub(crate) fn add_all(to: &mut Vec<Paint>, more: Vec<Paint>)
    ensures
        paints(final(to)@) == paints(old(to)@) + paints(more@),
{
    let mut m = more;
    to.append(&mut m);
    assert(paints(to@) =~= paints(old(to)@) + paints(more@));
}

/// What the board draws. `selected` counts over the cards of all columns.
pub fn render(g: &Geometry, board: &Board, selected: usize, status: &str, meta: &CardMeta) -> (r: Vec<Paint>)
    ensures
        paints(r@) == board_paints(*g, board@, selected, status@, meta),
{
    let mut out: Vec<Paint> = Vec::new();
    let all = Column::ALL;
    // The part of the selection that lies behind the columns drawn so far, until
    // a column holds it.
    let mut left: Option<usize> = Some(selected);
    let mut i: usize = 0;
    assert(paints(out@) =~= columns_paints(*g, board@, selected, meta, 0));
    while i < 4
        invariant
            i <= 4,
            all@ == Column::ALL@,
            match left {
                Some(n) => selected == cards_before(board@, i as int) + n,
                None => selected < cards_before(board@, i as int),
            },
            paints(out@) == columns_paints(*g, board@, selected, meta, i as int),
        decreases 4 - i,
    {
        let agents = board.column(all[i]);
        assert(all@[i as int] == Column::ALL[i as int]);
        assert(agent_refs(agents@).len() == agents@.len());
        let len: usize = agents.len();
        let row: Option<usize> = match left {
            Some(n) => if n < len {
                Some(n)
            } else {
                None
            },
            None => None,
        };
        assert(row == row_selected(selected, cards_before(board@, i as int), len as int));
        let part = column(g, i, &agents, row, meta);
        add_all(&mut out, part);
        left = match left {
            Some(n) => if n >= len {
                Some(n - len)
            } else {
                None
            },
            None => None,
        };
        i = i + 1;
    }
    let ghost cols = paints(out@);
    out.push(divide(g.columns[0]));
    out.push(divide(g.columns[1]));
    out.push(divide(g.columns[2]));
    let ghost with_rules = cols + seq![
        divider(g.columns@[0]),
        divider(g.columns@[1]),
        divider(g.columns@[2]),
    ];
    assert(paints(out@) =~= with_rules);
    let ghost was = out@;
    if !status.is_empty() {
        let above = Rect { y: less_cells(g.footer.y, 1), ..g.footer };
        out.push(text_paint(above, status, dim(), Align::Left));
    }
    let (hints, _) = footer_layout();
    out.push(line_paint(g.footer, hints, Align::Left));
    out.push(text_paint(g.footer, "⟦∴⟧", corner(), Align::Right));
    assert(paints(out@) =~= with_rules + foot_paints(g.footer, status@));
    out
}

/// What the filter draws: the mark in the corner of its strip, a line below its
/// field, and in the field the query with a cursor while it is edited, or what
/// it is for.
pub open spec fn filter_paints(strip: Rect, filter: Seq<char>, editing: bool) -> Seq<PaintView> {
    let mark_w = minus(strip.width, PAD);
    let mark = Rect {
        x: plus(strip.x, PAD),
        y: strip.y,
        width: if mark_w <= 6 {
            mark_w
        } else {
            6
        },
        height: 1,
    };
    let field = field_in(strip);
    let inner = Rect { height: 1, ..field };
    let line = if filter.len() == 0 && !editing {
        one_piece(inner, "type to filter…"@, dim(), Align::Left)
    } else {
        one_piece(
            inner,
            filter + (if editing {
                "\u{2588}"@
            } else {
                ""@
            }),
            bold(),
            Align::Left,
        )
    };
    seq![
        one_piece(mark, "corral"@, dim(), Align::Left),
        PaintView::Underline {
            area: field,
            style: if editing {
                plain()
            } else {
                dim()
            },
        },
        line,
    ]
}

/// What the filter draws.
pub fn render_filter(g: &Geometry, filter: &str, filtering: bool) -> (r: Vec<Paint>)
    ensures
        paints(r@) == filter_paints(g.filter, filter@, filtering),
{
    let strip = g.filter;
    let mark_w = less_cells(strip.width, PAD);
    let mark = Rect {
        x: add_cells(strip.x, PAD),
        y: strip.y,
        width: if mark_w <= 6 {
            mark_w
        } else {
            6
        },
        height: 1,
    };
    let field = filter_field(strip);
    let inner = Rect { height: 1, ..field };
    let mut out: Vec<Paint> = Vec::new();
    out.push(text_paint(mark, "corral", dim(), Align::Left));
    let style = if filtering {
        plain()
    } else {
        dim()
    };
    out.push(Paint::Underline { area: field, style });
    if filter.is_empty() && !filtering {
        out.push(text_paint(inner, "type to filter…", dim(), Align::Left));
    } else {
        let cursor = if filtering {
            "\u{2588}"
        } else {
            ""
        };
        let text = cat(filter, cursor);
        out.push(text_paint(inner, text.as_str(), bold(), Align::Left));
    }
    assert(paints(out@) =~= filter_paints(strip, filter@, filtering));
    out
}

/// What the composer draws in its part: a frame that names the receiver, and the
/// text so far.
pub open spec fn compose_paints(area: Rect, target: Seq<char>, buf: Seq<char>) -> Seq<PaintView> {
    seq![
        PaintView::Clear(area),
        PaintView::Frame {
            area,
            title: " message "@ + target + " — enter send, esc cancel "@,
            style: plain(),
        },
        one_piece(inside_frame(area), "> "@ + buf, plain(), Align::Left),
    ]
}

/// What the composer draws in the middle of a screen.
pub fn render_compose(screen: Rect, target: &str, buf: &str) -> (r: Vec<Paint>)
    requires
        screen.right() <= u16::MAX,
        screen.bottom() <= u16::MAX,
    ensures
        paints(r@) == compose_paints(middle_of(screen, 70, 20), target@, buf@),
{
    let area = centered(screen, 70, 20);
    let mut out: Vec<Paint> = Vec::new();
    out.push(Paint::Clear(area));
    let title = cat3(" message ", target, " — enter send, esc cancel ");
    out.push(Paint::Frame { area, title, style: plain() });
    let text = cat("> ", buf);
    out.push(text_paint(framed(area), text.as_str(), plain(), Align::Left));
    assert(paints(out@) =~= compose_paints(area, target@, buf@));
    out
}

/// The lines of the context menu: each entry behind a space, filled to the width
/// so that the highlight spans the row.
pub open spec fn menu_lines(inner: Rect, selected: int) -> Seq<Seq<SpanView>> {
    Seq::new(
        5,
        |i: int|
            seq![
                SpanView {
                    text: " "@ + padded(MenuAction::ALL[i].word(), minus(inner.width, 1) as int),
                    style: if i == selected {
                        reversed()
                    } else {
                        plain()
                    },
                },
            ],
    )
}

/// What the context menu draws.
pub open spec fn menu_paints(area: Rect, anchor: (u16, u16), selected: int) -> Seq<PaintView> {
    let rect = menu_at(area, anchor);
    seq![
        PaintView::Clear(rect),
        PaintView::Frame { area: rect, title: ""@, style: plain() },
        PaintView::Text {
            area: inside_frame(rect),
            lines: menu_lines(inside_frame(rect), selected),
            align: Align::Left,
        },
    ]
}

/// What the context menu draws.
pub fn render_menu(area: Rect, anchor: (u16, u16), selected: usize) -> (r: Vec<Paint>)
    ensures
        paints(r@) == menu_paints(area, anchor, selected as int),
{
    let rect = menu_rect(area, anchor);
    let inner = framed(rect);
    let all = MenuAction::ALL;
    let mut lines: Vec<Vec<Span>> = Vec::new();
    let mut i: usize = 0;
    while i < 5
        invariant
            i <= 5,
            all@ == MenuAction::ALL@,
            lines@.len() == i,
            forall|j: int|
                0 <= j < i ==> line_view((#[trigger] lines@[j])@) == menu_lines(inner, selected as int)[j],
        decreases 5 - i,
    {
        let style = if i == selected {
            reversed()
        } else {
            plain()
        };
        let label = pad_right(all[i].label(), less_cells(inner.width, 1) as usize);
        let mut l: Vec<Span> = Vec::new();
        l.push(Span { text: cat(" ", label.as_str()), style });
        assert(line_view(l@) =~= menu_lines(inner, selected as int)[i as int]);
        lines.push(l);
        i = i + 1;
    }
    assert(lines_view(lines@) =~= menu_lines(inner, selected as int));
    let mut out: Vec<Paint> = Vec::new();
    out.push(Paint::Clear(rect));
    out.push(Paint::Frame { area: rect, title: "".to_owned(), style: plain() });
    out.push(Paint::Text { area: inner, lines, align: Align::Left });
    assert(paints(out@) =~= menu_paints(area, anchor, selected as int));
    out
}

/// A look in one colour that stands out.
pub open spec fn bright(c: Color) -> Style {
    Style { fg: Some(c), bg: None, bold: true, dim: false, reversed: false }
}

/// Dropping a card on the target does nothing.
pub open spec fn drop_cancels(source: Column, target: Column) -> bool {
    move_action(source, target) == MoveAction::NoOp
}

/// A card may rest on a column while it is moved.
pub open spec fn may_rest(source: Column, col: Column) -> bool {
    is_destination(col) || col == source
}

/// The frame of a column while a card is moved: bright where the card rests,
/// in a warning colour where dropping it does nothing, and back where it cannot
/// go.
pub open spec fn box_style(source: Column, target: Column, col: Column) -> Style {
    if col == target && drop_cancels(source, target) {
        bright(Color::Yellow)
    } else if col == target {
        bright(Color::Green)
    } else if may_rest(source, col) {
        dim()
    } else {
        faint()
    }
}

/// The title of a column while a card is moved.
pub open spec fn box_title(source: Column, col: Column) -> Seq<char> {
    if may_rest(source, col) {
        " "@ + col.heading() + " "@
    } else {
        " "@ + col.heading() + " (not a target) "@
    }
}

/// What a column draws while a card is moved: a box over its cards, and in the
/// box of the target the card's name, with a note where dropping it does
/// nothing.
pub open spec fn box_paints(area: Rect, source: Column, target: Column, col: Column, label: Seq<char>) -> Seq<
    PaintView,
> {
    let inner = inside_frame(area);
    let frame = seq![
        PaintView::Clear(area),
        PaintView::Frame {
            area,
            title: box_title(source, col),
            style: box_style(source, target, col),
        },
    ];
    if col == target {
        let text = if drop_cancels(source, target) {
            label + " (drop to cancel)"@
        } else {
            label
        };
        frame.push(
            one_piece(
                Rect { y: plus(inner.y, inner.height / 2), height: 1, ..inner },
                truncated(text, minus(inner.width, 2) as int),
                bold(),
                Align::Center,
            ),
        )
    } else {
        frame
    }
}

/// What the first columns draw while a card is moved.
pub open spec fn boxes_paints(g: Geometry, source: Column, target: Column, label: Seq<char>, n: int) -> Seq<PaintView>
    decreases n,
{
    if n <= 0 {
        Seq::empty()
    } else {
        boxes_paints(g, source, target, label, n - 1) + box_paints(
            g.columns@[n - 1],
            source,
            target,
            Column::ALL[n - 1],
            label,
        )
    }
}

/// What is drawn while a card is moved: a box for each column, and how the move
/// is steered in place of the key hints.
pub open spec fn move_paints(g: Geometry, source: Column, target: Column, label: Seq<char>) -> Seq<PaintView> {
    boxes_paints(g, source, target, label, 4).push(
        one_piece(
            g.footer,
            "moving: shift+←/→ choose column, release shift to drop, esc cancel"@,
            dim(),
            Align::Left,
        ),
    )
}

fn draw_box(area: Rect, source: Column, target: Column, col: Column, label: &str) -> (r: Vec<Paint>)
    ensures
        paints(r@) == box_paints(area, source, target, col, label@),
{
    let cancels = match action_for(source, target) {
        MoveAction::NoOp => true,
        _ => false,
    };
    let is_target = col == target;
    let is_dest = col != Column::RequiresAction || col == source;
    let style = if is_target && cancels {
        Style { fg: Some(Color::Yellow), bg: None, bold: true, dim: false, reversed: false }
    } else if is_target {
        Style { fg: Some(Color::Green), bg: None, bold: true, dim: false, reversed: false }
    } else if is_dest {
        dim()
    } else {
        faint()
    };
    let title = if is_dest {
        cat3(" ", col.title(), " ")
    } else {
        cat3(" ", col.title(), " (not a target) ")
    };
    let inner = framed(area);
    let mut out: Vec<Paint> = Vec::new();
    out.push(Paint::Clear(area));
    out.push(Paint::Frame { area, title, style });
    if is_target {
        let text = if cancels {
            cat(label, " (drop to cancel)")
        } else {
            label.to_owned()
        };
        let shown = truncate(text.as_str(), less_cells(inner.width, 2) as usize);
        let mid = Rect { y: add_cells(inner.y, inner.height / 2), height: 1, ..inner };
        out.push(text_paint(mid, shown.as_str(), bold(), Align::Center));
    }
    assert(paints(out@) =~= box_paints(area, source, target, col, label@));
    out
}

/// What is drawn while a card is moved.
pub fn render_move(g: &Geometry, source: Column, target: Column, moving_label: &str) -> (r: Vec<Paint>)
    ensures
        paints(r@) == move_paints(*g, source, target, moving_label@),
{
    let all = Column::ALL;
    let mut out: Vec<Paint> = Vec::new();
    let mut i: usize = 0;
    assert(paints(out@) =~= boxes_paints(*g, source, target, moving_label@, 0));
    while i < 4
        invariant
            i <= 4,
            all@ == Column::ALL@,
            paints(out@) == boxes_paints(*g, source, target, moving_label@, i as int),
        decreases 4 - i,
    {
        let part = draw_box(g.columns[i], source, target, all[i], moving_label);
        add_all(&mut out, part);
        i = i + 1;
    }
    let ghost was = out@;
    out.push(
        text_paint(
            g.footer,
            "moving: shift+←/→ choose column, release shift to drop, esc cancel",
            dim(),
            Align::Left,
        ),
    );
    assert(paints(out@) =~= move_paints(*g, source, target, moving_label@));
    out
}

/// The card that is being moved is shown in the box of its target and in no
/// other, and the box says so where dropping it would do nothing.
pub proof fn law_moving_card_is_shown_once(area: Rect, source: Column, target: Column, col: Column, label: Seq<char>)
    ensures
        box_paints(area, source, target, col, label).len() == (if col == target {
            3
        } else {
            2int
        }),
        box_style(source, target, target) == (if move_action(source, target) == MoveAction::NoOp {
            bright(Color::Yellow)
        } else {
            bright(Color::Green)
        }),
{
}

/// The card that is drawn as selected is the one that the selection counts to,
/// and no other column draws one.
pub proof fn law_selected_card_is_drawn_once(b: BoardView, selected: usize, i: int, j: int)
    requires
        0 <= i < 4,
        0 <= j < 4,
    ensures
        ({
            let row = |c: int| row_selected(selected, cards_before(b, c), b.column(Column::ALL[c]).len() as int);
            &&& row(i) is Some && row(j) is Some ==> i == j
            &&& row(i) matches Some(r) ==> {
                &&& selected < b.selectable().len()
                &&& b.column(Column::ALL[i])[r as int] == b.selectable()[selected as int]
            }
            &&& selected < b.selectable().len() ==> row(0) is Some || row(1) is Some || row(2) is Some || row(3) is Some
        }),
{
    reveal_with_fuel(cards_before, 5);
    assert(Column::ALL[0] == Column::RequiresAction);
    assert(Column::ALL[1] == Column::Idle);
    assert(Column::ALL[2] == Column::Running);
    assert(Column::ALL[3] == Column::Dormant);
    assert(i == 0 || i == 1 || i == 2 || i == 3);
    assert(j == 0 || j == 1 || j == 2 || j == 3);
}

/// Each column is headed by its own name and the number of its cards, and its
/// cards are those of its agents, in order, drawn in the place for them.
pub proof fn law_column_is_drawn_card_by_card(
    g: Geometry,
    i: int,
    agents: Seq<AgentView>,
    selected: Option<usize>,
    meta: &CardMeta,
    k: int,
)
    requires
        0 <= i < 4,
    ensures
        ({
            let p = column_paints(g, i, agents, selected, meta);
            &&& p.len() == 3
            &&& p[0] matches PaintView::Text { area, lines, .. } && area == g.heads@[i]
                && lines[0][0].text == caption(Column::ALL[i]) && lines[0][1].text == "  "@ + decimal(
                agents.len(),
            )
            &&& p[2] matches PaintView::Cards { column, area, cards, selected: s } && {
                &&& column == i
                &&& area == g.cards@[i]
                &&& s == selected
                &&& cards.len() == agents.len()
                &&& 0 <= k < agents.len() ==> cards[k] == card_lines(
                    agents[k],
                    meta.age(agents[k], Column::ALL[i]),
                    meta.moving(agents[k]),
                    minus(g.cards@[i].width, 1) as int,
                )
            }
        }),
{
}

/// All four columns of the board are drawn, each with its own agents, one after
/// the other.
pub proof fn law_all_columns_are_drawn(
    g: Geometry,
    b: BoardView,
    selected: usize,
    meta: &CardMeta,
    i: int,
    n: int,
)
    requires
        0 <= i < n <= 4,
    ensures
        columns_paints(g, b, selected, meta, n).len() == 3 * n,
        columns_paints(g, b, selected, meta, n).subrange(3 * i, 3 * i + 3) == column_paints(
            g,
            i,
            b.column(Column::ALL[i]),
            row_selected(selected, cards_before(b, i), b.column(Column::ALL[i]).len() as int),
            meta,
        ),
    decreases n,
{
    let p = columns_paints(g, b, selected, meta, n);
    let q = columns_paints(g, b, selected, meta, n - 1);
    if n > 1 {
        law_all_columns_are_drawn(g, b, selected, meta, 0, n - 1);
    } else {
        assert(q.len() == 0);
    }
    if i < n - 1 {
        law_all_columns_are_drawn(g, b, selected, meta, i, n - 1);
        assert(p.subrange(3 * i, 3 * i + 3) =~= q.subrange(3 * i, 3 * i + 3));
    } else {
        assert(p.subrange(3 * i, 3 * i + 3) =~= column_paints(
            g,
            i,
            b.column(Column::ALL[i]),
            row_selected(selected, cards_before(b, i), b.column(Column::ALL[i]).len() as int),
            meta,
        ));
    }
}

/// The columns' names are told apart, and are their titles in capitals.
pub proof fn law_columns_are_named_apart(c: Column, d: Column)
    requires
        caption(c) == caption(d),
    ensures
        c == d,
        caption(c).len() == c.heading().len(),
{
    reveal_strlit("REQUIRES ACTION");
    reveal_strlit("IDLE");
    reveal_strlit("RUNNING");
    reveal_strlit("DORMANT");
    reveal_strlit("Requires Action");
    reveal_strlit("Idle");
    reveal_strlit("Running");
    reveal_strlit("Dormant");
    assert("REQUIRES ACTION"@.len() == 15);
    assert("IDLE"@.len() == 4);
    assert("RUNNING"@[0] == 'R' && "RUNNING"@.len() == 7);
    assert("DORMANT"@[0] == 'D' && "DORMANT"@.len() == 7);
}

/// What the board has to say stands on the row above the hints, and the row is
/// left alone where it has nothing to say.
pub proof fn law_status_stands_above_the_hints(footer: Rect, status: Seq<char>)
    ensures
        status.len() == 0 ==> foot_paints(footer, status).len() == 2,
        status.len() > 0 ==> foot_paints(footer, status).len() == 3 && (foot_paints(
            footer,
            status,
        )[0] matches PaintView::Text { area, lines, .. } && area.y == minus(footer.y, 1) && lines[0][0].text
            == status),
        foot_paints(footer, status)[foot_paints(footer, status).len() - 2] matches PaintView::Text {
            area,
            lines,
            ..
        } && area == footer && lines == seq![hint_spans(8)],
{
}

/// The filter shows what is in it, with a cursor while it is edited; an empty one
/// that is not edited says what it is for. What is written to an agent is shown
/// under the agent's name.
pub proof fn law_what_is_typed_is_shown(
    strip: Rect,
    filter: Seq<char>,
    editing: bool,
    area: Rect,
    target: Seq<char>,
    buf: Seq<char>,
)
    ensures
        filter_paints(strip, filter, editing).len() == 3,
        filter_paints(strip, filter, editing)[2] matches PaintView::Text { lines, .. } && {
            &&& filter.len() > 0 && !editing ==> lines[0][0].text == filter
            &&& editing ==> lines[0][0].text == filter.push('\u{2588}')
            &&& filter.len() == 0 && !editing ==> lines[0][0].text == "type to filter…"@
        },
        compose_paints(area, target, buf)[1] matches PaintView::Frame { title, .. } && title
            == " message "@ + target + " — enter send, esc cancel "@,
        compose_paints(area, target, buf)[2] matches PaintView::Text { lines, .. } && lines[0][0].text
            == "> "@ + buf,
{
    reveal_strlit("");
    reveal_strlit("\u{2588}");
    if editing {
        assert(filter + "\u{2588}"@ =~= filter.push('\u{2588}'));
    } else if filter.len() > 0 {
        assert(filter + ""@ =~= filter);
    }
}

/// The menu lists its actions in their order, and the one that is highlighted,
/// and no other, stands out.
pub proof fn law_menu_shows_its_actions(inner: Rect, selected: int, i: int)
    requires
        0 <= i < 5,
    ensures
        menu_lines(inner, selected).len() == 5,
        menu_lines(inner, selected)[i][0].style.reversed <==> i == selected,
        menu_lines(inner, selected)[i][0].text == " "@ + padded(
            MenuAction::ALL[i].word(),
            minus(inner.width, 1) as int,
        ),
{
}

/// While a card is in hand each column is titled by its own name, and says that it
/// is no target exactly where a card from elsewhere cannot be moved to it.
pub proof fn law_columns_say_where_a_card_can_go(source: Column, col: Column)
    ensures
        has_prefix(box_title(source, col), " "@ + col.heading()),
        box_title(source, col) == " "@ + col.heading() + " (not a target) "@ <==> col
            == Column::RequiresAction && source != Column::RequiresAction,
{
    reveal_strlit(" ");
    reveal_strlit(" (not a target) ");
    let p = " "@ + col.heading();
    let t = box_title(source, col);
    assert(t.subrange(0, p.len() as int) =~= p);
    assert((" "@ + col.heading() + " "@).len() != (" "@ + col.heading() + " (not a target) "@).len());
}

} // verus!

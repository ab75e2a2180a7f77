//! The whole screen: what is drawn of the board and of the way in which it takes
//! input.
use vstd::prelude::*;

use crate::board::card::{called, CardMeta};
use crate::board::draw::{
    add_all, board_paints, compose_paints, filter_paints, menu_paints, move_paints, render, render_compose,
    render_filter, render_menu, render_move,
};
use crate::board::geometry::{middle_of, Geometry};
use crate::board::shell::{chosen, Shell, ShellView};
use crate::board::style::{paints, Paint, PaintView};
use crate::model::{Board, BoardView};

verus! {

/// What is drawn over the board: the boxes of a move, which own the screen, or
/// else the filter, and over it the composer and the context menu that are open.
pub open spec fn mode_paints(s: ShellView, b: BoardView, g: Geometry) -> Seq<PaintView> {
    match s.move_mode {
        Some(m) => move_paints(
            g,
            m.0,
            m.1,
            match chosen(s, b) {
                Some(a) => called(a),
                None => ""@,
            },
        ),
        None => {
            let compose = match s.overlay {
                Some(c) => compose_paints(middle_of(g.area, 70, 20), c.label, c.buf),
                None => Seq::empty(),
            };
            let menu = match s.menu {
                Some(m) => menu_paints(g.area, m.anchor, m.highlight.place()),
                None => Seq::empty(),
            };
            filter_paints(g.filter, s.filter, s.filtering) + compose + menu
        },
    }
}

/// What is drawn of the whole screen.
pub open spec fn screen_paints(s: ShellView, b: BoardView, g: Geometry, meta: &CardMeta) -> Seq<PaintView> {
    board_paints(g, b, s.selected, s.status, meta) + mode_paints(s, b, g)
}

/// What is drawn of the whole screen.
pub fn frame(shell: &Shell, board: &Board, g: &Geometry, meta: &CardMeta) -> (r: Vec<Paint>)
    requires
        g.area.right() <= u16::MAX,
        g.area.bottom() <= u16::MAX,
    ensures
        paints(r@) == screen_paints(shell@, board@, *g, meta),
{
    let mut out = render(g, board, shell.selected(), shell.status(), meta);
    let ghost base = paints(out@);
    match shell.move_mode() {
        Some(m) => {
            let label = match shell.move_label(board) {
                Some(l) => l,
                None => "".to_owned(),
            };
            add_all(&mut out, render_move(g, m.0, m.1, label.as_str()));
        },
        None => {
            let ghost none = Seq::<PaintView>::empty();
            add_all(&mut out, render_filter(g, shell.filter(), shell.filtering()));
            let ghost filter = filter_paints(g.filter, shell@.filter, shell@.filtering);
            let ghost mut over = filter;
            match shell.overlay() {
                Some(c) => {
                    let more = render_compose(g.area, c.label.as_str(), c.buf.as_str());
                    proof {
                        over = filter + paints(more@);
                    }
                    add_all(&mut out, more);
                    assert(paints(out@) =~= base + over);
                },
                None => {
                    assert(filter + none =~= filter);
                },
            }
            match shell.menu() {
                Some(m) => {
                    let more = render_menu(g.area, m.anchor, m.highlight.index());
                    let ghost drawn = paints(more@);
                    add_all(&mut out, more);
                    assert(paints(out@) =~= base + (over + drawn));
                },
                None => {
                    assert(over + none =~= over);
                },
            }
        },
    }
    out
}

/// The board is drawn first and whole, whatever else is open, and what is open is
/// drawn over it: the columns that a card in hand can rest on, or else the filter,
/// the message that is being written and the menu, in this order.
pub proof fn law_board_is_drawn_first(s: ShellView, b: BoardView, g: Geometry, meta: &CardMeta)
    ensures
        ({
            let p = screen_paints(s, b, g, meta);
            let n = board_paints(g, b, s.selected, s.status, meta).len() as int;
            &&& p.subrange(0, n) == board_paints(g, b, s.selected, s.status, meta)
            &&& s.move_mode matches Some(m) ==> (chosen(s, b) matches Some(a) ==> p.subrange(
                n,
                p.len() as int,
            ) == move_paints(g, m.0, m.1, called(a)))
            &&& s.move_mode is None ==> p.subrange(n, n + 3) == filter_paints(
                g.filter,
                s.filter,
                s.filtering,
            )
            &&& s.move_mode is None && s.overlay is None && s.menu is None ==> p.len() == n + 3
            &&& s.move_mode is None ==> (s.overlay matches Some(c) ==> p.subrange(n + 3, n + 6)
                == compose_paints(middle_of(g.area, 70, 20), c.label, c.buf))
            &&& s.move_mode is None ==> (s.menu matches Some(m) ==> p.subrange(
                p.len() - 3,
                p.len() as int,
            ) == menu_paints(g.area, m.anchor, m.highlight.place()))
        }),
{
    let p = screen_paints(s, b, g, meta);
    let f = board_paints(g, b, s.selected, s.status, meta);
    let n = f.len() as int;
    assert(p.subrange(0, n) =~= f);
    assert(p.subrange(n, p.len() as int) =~= mode_paints(s, b, g));
    if s.move_mode is None {
        assert(p.subrange(n, n + 3) =~= filter_paints(g.filter, s.filter, s.filtering));
        if s.overlay is Some {
            let c = s.overlay->0;
            assert(p.subrange(n + 3, n + 6) =~= compose_paints(
                middle_of(g.area, 70, 20),
                c.label,
                c.buf,
            ));
        }
        if s.menu is Some {
            let m = s.menu->0;
            assert(p.subrange(p.len() - 3, p.len() as int) =~= menu_paints(
                g.area,
                m.anchor,
                m.highlight.place(),
            ));
        }
    }
}

} // verus!

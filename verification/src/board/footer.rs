//! The row of key hints, which are buttons too.
use vstd::prelude::*;

use crate::board::geometry::{Geometry, Rect};
use crate::board::style::{dim, line_view, line_width, plain, span, Color, Span, SpanView, Style};
use crate::menu::MenuAction;
use crate::text::{cat, cat3, char_count};

verus! {

/// What a click on a key hint does.
#[derive(Debug, Clone, Copy, PartialEq, Eq, Structural)]
pub enum FooterAction {
    Go,
    New,
    Jump,
    Msg,
    Delete,
    Toggle,
    Quit,
}

/// Blank cells between two hints.
pub const FOOTER_GAP: u16 = 2;

/// The look of a key.
#[verifier::allow_in_spec]
pub fn keycap() -> Style
    returns
        (Style { fg: Some(Color::Black), bg: Some(Color::Gray), bold: false, dim: false, reversed: false }),
{
    Style { fg: Some(Color::Black), bg: Some(Color::Gray), bold: false, dim: false, reversed: false }
}

/// The hints, left to right: what a click does, if it does anything, the key,
/// and what it is for. What the context menu has too is called the same there.
pub open spec fn hints() -> Seq<(Option<FooterAction>, Seq<char>, Seq<char>)> {
    seq![
        (None, "arrows"@, "move"@),
        (Some(FooterAction::Go), "enter"@, MenuAction::Go.word()),
        (Some(FooterAction::New), "shift+enter"@, MenuAction::Spawn.word()),
        (Some(FooterAction::Jump), "/"@, "filter"@),
        (Some(FooterAction::Msg), "m"@, MenuAction::Message.word()),
        (Some(FooterAction::Delete), "d"@, MenuAction::Dismiss.word()),
        (Some(FooterAction::Toggle), "h"@, MenuAction::ToggleHidden.word()),
        (Some(FooterAction::Quit), "q"@, "quit"@),
    ]
}

/// The cells that a hint takes: its key with a space at either side, and what it
/// is for behind a space.
pub open spec fn hint_width(i: int) -> int {
    (hints()[i].1.len() + hints()[i].2.len() + 3) as int
}

/// Where a hint begins, counted from the row's left end.
pub open spec fn hint_start(i: int) -> int
    decreases i,
{
    if i <= 0 {
        0
    } else {
        hint_start(i - 1) + hint_width(i - 1) + FOOTER_GAP
    }
}

/// The pieces of the first hints.
pub open spec fn hint_spans(n: int) -> Seq<SpanView>
    decreases n,
{
    if n <= 0 {
        Seq::empty()
    } else {
        let h = hints()[n - 1];
        let gap = if n > 1 {
            hint_spans(n - 1).push(SpanView { text: "  "@, style: plain() })
        } else {
            hint_spans(n - 1)
        };
        gap.push(SpanView { text: " "@ + h.1 + " "@, style: keycap() }).push(
            SpanView { text: " "@ + h.2, style: dim() },
        )
    }
}

/// The buttons among the first hints: what each does, where it begins and how
/// wide it is.
pub open spec fn hint_buttons(n: int) -> Seq<(FooterAction, u16, u16)>
    decreases n,
{
    if n <= 0 {
        Seq::empty()
    } else {
        match hints()[n - 1].0 {
            Some(a) => hint_buttons(n - 1).push((a, hint_start(n - 1) as u16, hint_width(n - 1) as u16)),
            None => hint_buttons(n - 1),
        }
    }
}

proof fn lemma_hint_widths()
    ensures
        forall|i: int| 0 <= i < 8 ==> #[trigger] hint_width(i) <= 30,
        hints().len() == 8,
{
    reveal_strlit("arrows");
    reveal_strlit("move");
    reveal_strlit("enter");
    reveal_strlit("go");
    reveal_strlit("shift+enter");
    reveal_strlit("new");
    reveal_strlit("/");
    reveal_strlit("filter");
    reveal_strlit("m");
    reveal_strlit("msg");
    reveal_strlit("d");
    reveal_strlit("delete");
    reveal_strlit("h");
    reveal_strlit("hide/show");
    reveal_strlit("q");
    reveal_strlit("quit");
    assert forall|i: int| 0 <= i < 8 implies #[trigger] hint_width(i) <= 30 by {
        assert(i == 0 || i == 1 || i == 2 || i == 3 || i == 4 || i == 5 || i == 6 || i == 7);
    }
}

/// The hints, left to right.
pub fn footer_items() -> (r: [(Option<FooterAction>, &'static str, &'static str); 8])
    ensures
        forall|i: int|
            0 <= i < 8 ==> ((#[trigger] r@[i]).0, r@[i].1@, r@[i].2@) == hints()[i],
{
    [
        (None, "arrows", "move"),
        (Some(FooterAction::Go), "enter", MenuAction::Go.label()),
        (Some(FooterAction::New), "shift+enter", MenuAction::Spawn.label()),
        (Some(FooterAction::Jump), "/", "filter"),
        (Some(FooterAction::Msg), "m", MenuAction::Message.label()),
        (Some(FooterAction::Delete), "d", MenuAction::Dismiss.label()),
        (Some(FooterAction::Toggle), "h", MenuAction::ToggleHidden.label()),
        (Some(FooterAction::Quit), "q", "quit"),
    ]
}

/// The pieces of the row, and its buttons: what is drawn and what is hit.
pub fn footer_layout() -> (r: (Vec<Span>, Vec<(FooterAction, u16, u16)>))
    ensures
        line_view(r.0@) == hint_spans(8),
        r.1@ == hint_buttons(8),
{
    proof {
        lemma_hint_widths();
    }
    let items = footer_items();
    let mut spans: Vec<Span> = Vec::new();
    let mut buttons: Vec<(FooterAction, u16, u16)> = Vec::new();
    let mut x: u16 = 0;
    let mut i: usize = 0;
    assert(line_view(spans@) =~= hint_spans(0));
    assert(buttons@ =~= hint_buttons(0));
    while i < 8
        invariant
            i <= 8,
            forall|k: int|
                0 <= k < 8 ==> ((#[trigger] items@[k]).0, items@[k].1@, items@[k].2@) == hints()[k],
            forall|k: int| 0 <= k < 8 ==> #[trigger] hint_width(k) <= 30,
            x == hint_start(i as int),
            x <= 32 * i,
            line_view(spans@) == hint_spans(i as int),
            buttons@ == hint_buttons(i as int),
        decreases 8 - i,
    {
        assert(items@[i as int].1@ == hints()[i as int].1);
        let (action, key, desc) = items[i];
        let ghost s0 = spans@;
        if i > 0 {
            spans.push(span("  ", plain()));
            assert(line_view(spans@) =~= line_view(s0).push(SpanView { text: "  "@, style: plain() }));
        }
        let ghost s1 = spans@;
        let cap = cat3(" ", key, " ");
        let label = cat(" ", desc);
        assert(hint_width(i as int) <= 30);
        proof {
            reveal_strlit(" ");
        }
        let w: u16 = (char_count(cap.as_str()) + char_count(label.as_str())) as u16;
        match action {
            Some(a) => {
                buttons.push((a, x, w));
            },
            None => {},
        }
        spans.push(Span { text: cap, style: keycap() });
        spans.push(Span { text: label, style: dim() });
        assert(line_view(spans@) =~= line_view(s1).push(SpanView { text: cap@, style: keycap() }).push(
            SpanView { text: label@, style: dim() },
        ));
        x = x + w + FOOTER_GAP;
        i = i + 1;
    }
    (spans, buttons)
}

/// The button under a cell of the row, among the first so many.
pub open spec fn button_from(footer: Rect, buttons: Seq<(FooterAction, u16, u16)>, col: u16) -> Option<FooterAction>
    decreases buttons.len(),
{
    if buttons.len() == 0 {
        None
    } else {
        let (a, x, w) = buttons[0];
        if footer.x + x <= col < footer.x + x + w {
            Some(a)
        } else {
            button_from(footer, buttons.drop_first(), col)
        }
    }
}

/// The button under a cell.
pub open spec fn button_at(footer: Rect, col: u16, row: u16) -> Option<FooterAction> {
    if row != footer.y {
        None
    } else {
        button_from(footer, hint_buttons(8), col)
    }
}

/// What a click on a cell of the hints does.
pub fn footer_hit_test(g: &Geometry, col: u16, row: u16) -> (r: Option<FooterAction>)
    ensures
        r == button_at(g.footer, col, row),
{
    let f = g.footer;
    if row != f.y {
        return None;
    }
    let (_, buttons) = footer_layout();
    let ghost all = hint_buttons(8);
    let mut i: usize = 0;
    assert(all.skip(0) =~= all);
    while i < buttons.len()
        invariant
            i <= buttons@.len(),
            row == f.y,
            f == g.footer,
            all == hint_buttons(8),
            buttons@ == all,
            button_from(f, all, col) == button_from(f, all.skip(i as int), col),
        decreases buttons@.len() - i,
    {
        assert(all.skip(i as int).drop_first() =~= all.skip(i + 1));
        assert(all.skip(i as int)[0] == buttons@[i as int]);
        let (a, x, w) = buttons[i];
        let from: u32 = f.x as u32 + x as u32;
        if col as u32 >= from && (col as u32) < from + w as u32 {
            return Some(a);
        }
        i = i + 1;
    }
    None
}

/// A hint is hit where it is drawn: it ends the pieces drawn so far, begins
/// where its button does, and every cell of it does what it says; a hint that is
/// no button does nothing.
pub proof fn law_hints_are_hit_where_they_are_drawn(footer: Rect, i: int, col: u16)
    requires
        0 <= i < 8,
    ensures
        line_width(hint_spans(i + 1)) == hint_start(i) + hint_width(i),
        footer.x + hint_start(i) <= col < footer.x + hint_start(i) + hint_width(i) ==> button_at(
            footer,
            col,
            footer.y,
        ) == hints()[i].0,
{
    lemma_hint_widths();
    lemma_hint_starts(8);
    lemma_drawn_width(i + 1);
    if footer.x + hint_start(i) <= col < footer.x + hint_start(i) + hint_width(i) {
        lemma_buttons(footer, 8, i, col);
    }
}

proof fn lemma_hint_starts(n: int)
    requires
        0 <= n <= 8,
    ensures
        forall|j: int| 0 <= j < n ==> 0 < #[trigger] hint_width(j) <= 30,
        forall|j: int| 0 <= j <= n ==> 0 <= #[trigger] hint_start(j) <= 32 * j,
        forall|j: int, k: int|
            0 <= j < k <= n ==> #[trigger] hint_start(j) + hint_width(j) <= #[trigger] hint_start(k),
    decreases n,
{
    lemma_hint_widths();
    if n > 0 {
        lemma_hint_starts(n - 1);
        assert(hint_start(n) == hint_start(n - 1) + hint_width(n - 1) + FOOTER_GAP);
        assert(hint_width(n - 1) > 0);
    }
}

proof fn lemma_drawn_width(n: int)
    requires
        1 <= n <= 8,
    ensures
        line_width(hint_spans(n)) == hint_start(n - 1) + hint_width(n - 1),
    decreases n,
{
    reveal_strlit(" ");
    reveal_strlit("  ");
    let h = hints()[n - 1];
    let cap = SpanView { text: " "@ + h.1 + " "@, style: keycap() };
    let label = SpanView { text: " "@ + h.2, style: dim() };
    let gap = if n > 1 {
        hint_spans(n - 1).push(SpanView { text: "  "@, style: plain() })
    } else {
        hint_spans(n - 1)
    };
    if n > 1 {
        lemma_drawn_width(n - 1);
        assert(gap.drop_last() =~= hint_spans(n - 1));
        assert(line_width(gap) == line_width(hint_spans(n - 1)) + FOOTER_GAP);
    } else {
        assert(line_width(gap) == 0);
        assert(hint_start(0) == 0);
    }
    assert(gap.push(cap).drop_last() =~= gap);
    assert(line_width(gap.push(cap)) == line_width(gap) + h.1.len() + 2);
    assert(gap.push(cap).push(label).drop_last() =~= gap.push(cap));
    assert(line_width(gap.push(cap).push(label)) == line_width(gap.push(cap)) + h.2.len() + 1);
}

/// Of the buttons of the first hints, a cell of one of these hits its own, and a
/// cell of any other hint none.
proof fn lemma_buttons(footer: Rect, n: int, i: int, col: u16)
    requires
        0 <= n <= 8,
        0 <= i < 8,
        footer.x + hint_start(i) <= col < footer.x + hint_start(i) + hint_width(i),
    ensures
        button_from(footer, hint_buttons(n), col) == (if i < n {
            hints()[i].0
        } else {
            None
        }),
    decreases n,
{
    lemma_hint_starts(8);
    if n > 0 {
        lemma_buttons(footer, n - 1, i, col);
        let rest = hint_buttons(n - 1);
        match hints()[n - 1].0 {
            Some(a) => {
                let x = hint_start(n - 1);
                let w = hint_width(n - 1);
                lemma_button_pushed(footer, rest, (a, x as u16, w as u16), col);
                if i < n - 1 {
                    assert(hint_start(i) + hint_width(i) <= hint_start(n - 1));
                } else if i > n - 1 {
                    assert(hint_start(n - 1) + hint_width(n - 1) <= hint_start(i));
                }
            },
            None => {},
        }
    }
}

proof fn lemma_button_pushed(footer: Rect, v: Seq<(FooterAction, u16, u16)>, b: (FooterAction, u16, u16), col: u16)
    ensures
        button_from(footer, v.push(b), col) == (match button_from(footer, v, col) {
            Some(a) => Some(a),
            None => if footer.x + b.1 <= col < footer.x + b.1 + b.2 {
                Some(b.0)
            } else {
                None
            },
        }),
    decreases v.len(),
{
    reveal_with_fuel(button_from, 2);
    if v.len() > 0 {
        assert(v.push(b).drop_first() =~= v.drop_first().push(b));
        lemma_button_pushed(footer, v.drop_first(), b, col);
    } else {
        assert(v.push(b).drop_first().len() == 0);
    }
}

/// Each action that can be clicked is hinted at under the key that does it.
pub proof fn law_hints_name_their_keys(i: int)
    requires
        0 <= i < 8,
    ensures
        hints().len() == 8,
        hints()[i].0 == Some(FooterAction::Go) <==> hints()[i].1 == "enter"@,
        hints()[i].0 == Some(FooterAction::New) <==> hints()[i].1 == "shift+enter"@,
        hints()[i].0 == Some(FooterAction::Jump) <==> hints()[i].1 == "/"@,
        hints()[i].0 == Some(FooterAction::Msg) <==> hints()[i].1 == "m"@,
        hints()[i].0 == Some(FooterAction::Delete) <==> hints()[i].1 == "d"@,
        hints()[i].0 == Some(FooterAction::Toggle) <==> hints()[i].1 == "h"@,
        hints()[i].0 == Some(FooterAction::Quit) <==> hints()[i].1 == "q"@,
{
    reveal_strlit("arrows");
    reveal_strlit("enter");
    reveal_strlit("shift+enter");
    reveal_strlit("/");
    reveal_strlit("m");
    reveal_strlit("d");
    reveal_strlit("h");
    reveal_strlit("q");
    assert("arrows"@.len() == 6);
    assert("enter"@.len() == 5);
    assert("shift+enter"@.len() == 11);
    assert("/"@[0] == '/' && "/"@.len() == 1);
    assert("m"@[0] == 'm' && "m"@.len() == 1);
    assert("d"@[0] == 'd' && "d"@.len() == 1);
    assert("h"@[0] == 'h' && "h"@.len() == 1);
    assert("q"@[0] == 'q' && "q"@.len() == 1);
}

} // verus!

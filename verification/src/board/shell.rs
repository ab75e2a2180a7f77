//! The board's input: what keys and clicks do, mode by mode. A card on the move
//! takes all input, else an open menu does, else the filter while it is edited,
//! else the composer, else the board itself.
use vstd::prelude::*;

use crate::board::card::{called, focus_label};
use crate::board::footer::{button_at, footer_hit_test, FooterAction};
use crate::board::geometry::{
    card_at, column_from, column_under, counts_of, entry_at, field_in, filter_hit_test, hit_in, law_hit_is_selectable,
    lemma_board_total, menu_at, menu_hit_test, menu_rect, Geometry,
};
use crate::board::plan::{
    activate, commit_move, compose_to, dismiss, dismiss_plan, go_plan, move_plan, open_compose, plan_view, send,
    send_plan, spawn_beside, spawn_plan, toggle_placement, toggle_plan, After, AfterView, Compose, ComposeView,
    Report, ReportView, Task, TaskView,
};
use crate::click::{pressed, ClickKind, ClickTracker, ClickView, DOUBLE_CLICK};
use crate::engine::pairs;
use crate::launch::{opt_str, outcome};
use crate::menu::MenuAction;
use crate::model::{agent_refs, law_counts_add_up, Agent, AgentView, Board, BoardView, Column};
use crate::nav::{
    at_board_edge, board_entry, col_moved, law_moves_stay_on_the_board, lemma_offsets, move_col, move_row,
    move_selection, row_moved, total,
};
use crate::text::{cat, drop_last_char, opt_text, same, shorter, trim, trimmed};
use crate::transition::{initial_target, is_destination, slid, slide_target, stops, stops_of};

verus! {

/// How long a move waits for the agent to follow, in nanoseconds.
pub const PENDING_TTL: u128 = 5000000000;

/// A key of the keyboard, as far as the board tells them apart.
#[derive(Debug, Clone, Copy, PartialEq, Eq, Structural)]
pub enum Key {
    Char(char),
    Enter,
    Esc,
    Backspace,
    Up,
    Down,
    Left,
    Right,
    /// A shift key itself.
    Shift,
    Other,
}

/// What was done to a key.
#[derive(Debug, Clone, Copy, PartialEq, Eq, Structural)]
pub enum Stroke {
    Press,
    Repeat,
    Release,
}

/// What was done with the mouse.
#[derive(Debug, Clone, Copy, PartialEq, Eq, Structural)]
pub enum Pointer {
    ScrollDown,
    ScrollUp,
    LeftDown,
    LeftDrag,
    LeftUp,
    RightDown,
    Other,
}

/// One input.
#[derive(Debug, Clone, Copy, PartialEq, Eq, Structural)]
pub enum Input {
    Key { key: Key, stroke: Stroke, shift: bool },
    Mouse { pointer: Pointer, col: u16, row: u16 },
    Other,
}

/// The context menu that is open: where, and which entry is highlighted.
#[derive(Debug, Clone, Copy)]
pub struct Menu {
    pub anchor: (u16, u16),
    pub highlight: MenuAction,
}

/// Whether the keyboard is to report more, as a card on the move needs it.
#[derive(Debug, Clone, Copy, PartialEq, Eq, Structural)]
pub enum Keyboard {
    Same,
    Push,
    Pop,
}

/// What an input calls for.
pub struct Effects {
    pub quit: bool,
    pub keyboard: Keyboard,
    pub task: Option<Task>,
}

pub struct EffectsView {
    pub quit: bool,
    pub keyboard: Keyboard,
    pub task: Option<TaskView>,
}

impl View for Effects {
    type V = EffectsView;

    open spec fn view(&self) -> EffectsView {
        EffectsView {
            quit: self.quit,
            keyboard: self.keyboard,
            task: match self.task {
                Some(t) => Some(t@),
                None => None,
            },
        }
    }
}

/// Nothing is called for.
pub open spec fn nothing() -> EffectsView {
    EffectsView { quit: false, keyboard: Keyboard::Same, task: None }
}

/// The board is left.
pub open spec fn leave() -> EffectsView {
    EffectsView { quit: true, ..nothing() }
}

fn no_effect() -> (r: Effects)
    ensures
        r@ == nothing(),
{
    Effects { quit: false, keyboard: Keyboard::Same, task: None }
}

fn quit_effect() -> (r: Effects)
    ensures
        r@ == leave(),
{
    Effects { quit: true, keyboard: Keyboard::Same, task: None }
}

/// A move that was carried out and not yet confirmed.
pub struct PendingMove {
    pub key: String,
    pub target: Column,
    pub since: u128,
}

#[verifier::ext_equal]
pub struct PendingMoveView {
    pub key: Seq<char>,
    pub target: Column,
    pub since: u128,
}

impl View for PendingMove {
    type V = PendingMoveView;

    open spec fn view(&self) -> PendingMoveView {
        PendingMoveView { key: self.key@, target: self.target, since: self.since }
    }
}

/// The moves, by their views.
pub open spec fn move_views(v: Seq<PendingMove>) -> Seq<PendingMoveView> {
    Seq::new(v.len(), |i: int| v[i]@)
}

/// What the board's interface keeps.
pub struct Shell {
    launcher_mode: bool,
    selected: usize,
    status: String,
    filter: String,
    filtering: bool,
    overlay: Option<Compose>,
    menu: Option<Menu>,
    clicks: ClickTracker,
    move_mode: Option<(Column, Column)>,
    drag_source: Option<Column>,
    pending: Vec<PendingMove>,
}

#[verifier::ext_equal]
pub struct ShellView {
    /// The board was opened as a popup, which is left after one use.
    pub launcher_mode: bool,
    /// The selected card, counted over all columns.
    pub selected: usize,
    /// What the board has to say.
    pub status: Seq<char>,
    /// What the cards are narrowed to.
    pub filter: Seq<char>,
    /// The filter is being edited.
    pub filtering: bool,
    /// The message that is being written.
    pub overlay: Option<ComposeView>,
    pub menu: Option<Menu>,
    pub clicks: ClickView,
    /// The column that a card is moved out of, and the one it rests on.
    pub move_mode: Option<(Column, Column)>,
    /// The column of the card on which the mouse was pressed.
    pub drag_source: Option<Column>,
    pub pending: Seq<PendingMoveView>,
}

impl View for Shell {
    type V = ShellView;

    closed spec fn view(&self) -> ShellView {
        ShellView {
            launcher_mode: self.launcher_mode,
            selected: self.selected,
            status: self.status@,
            filter: self.filter@,
            filtering: self.filtering,
            overlay: match self.overlay {
                Some(c) => Some(c@),
                None => None,
            },
            menu: self.menu,
            clicks: self.clicks@,
            move_mode: self.move_mode,
            drag_source: self.drag_source,
            pending: move_views(self.pending@),
        }
    }
}

/// What an input is judged by besides the interface's own state.
pub struct Scene<'a> {
    pub board: &'a Board,
    pub geometry: &'a Geometry,
    /// The first card that each column shows.
    pub scroll: [usize; 4],
    pub home: Option<&'a str>,
    pub now: u128,
}

/// The selected agent.
pub open spec fn chosen(s: ShellView, b: BoardView) -> Option<AgentView> {
    if s.selected < b.selectable().len() {
        Some(b.selectable()[s.selected as int])
    } else {
        None
    }
}

/// An action was planned: its deed is called for, or the board says why not.
pub open spec fn planned(s: ShellView, p: Result<TaskView, Seq<char>>) -> (ShellView, EffectsView) {
    match p {
        Ok(t) => (s, EffectsView { task: Some(t), ..nothing() }),
        Err(e) => (ShellView { status: e, ..s }, nothing()),
    }
}

/// The board says nothing.
pub open spec fn quiet(s: ShellView) -> ShellView {
    ShellView { status: Seq::empty(), ..s }
}

/// Going to the selected agent.
pub open spec fn gone_to(s: ShellView, b: BoardView) -> (ShellView, EffectsView) {
    match chosen(s, b) {
        Some(a) => planned(quiet(s), go_plan(a)),
        None => (quiet(s), nothing()),
    }
}

/// Starting a new agent beside the selected one.
pub open spec fn spawned(s: ShellView, b: BoardView, home: Option<Seq<char>>) -> (ShellView, EffectsView) {
    match chosen(s, b) {
        Some(a) => planned(quiet(s), spawn_plan(a, home)),
        None => (
            ShellView {
                status: "spawn: no agent selected (start the first agent from a terminal)"@,
                ..s
            },
            nothing(),
        ),
    }
}

/// Putting the selected agent on the other side.
pub open spec fn toggled(s: ShellView, b: BoardView) -> (ShellView, EffectsView) {
    match chosen(s, b) {
        Some(a) => (quiet(s), EffectsView { task: Some(toggle_plan(a)), ..nothing() }),
        None => (quiet(s), nothing()),
    }
}

/// Dismissing the selected agent.
pub open spec fn dismissed(s: ShellView, b: BoardView) -> (ShellView, EffectsView) {
    match chosen(s, b) {
        Some(a) => (quiet(s), EffectsView { task: dismiss_plan(a), ..nothing() }),
        None => (quiet(s), nothing()),
    }
}

/// Writing a message to the selected agent.
pub open spec fn composing(s: ShellView, b: BoardView) -> (ShellView, EffectsView) {
    (
        ShellView {
            overlay: match chosen(s, b) {
                Some(a) => compose_to(a),
                None => None,
            },
            ..quiet(s)
        },
        nothing(),
    )
}

/// Editing the filter.
pub open spec fn editing(s: ShellView) -> (ShellView, EffectsView) {
    (ShellView { filtering: true, ..quiet(s) }, nothing())
}

/// What an entry of the context menu does, once the menu is closed.
pub open spec fn menu_ran(s: ShellView, b: BoardView, home: Option<Seq<char>>, a: MenuAction) -> (
    ShellView,
    EffectsView,
) {
    match a {
        MenuAction::Go => gone_to(s, b),
        MenuAction::Message => composing(s, b),
        MenuAction::Spawn => spawned(s, b, home),
        MenuAction::ToggleHidden => toggled(s, b),
        MenuAction::Dismiss => dismissed(s, b),
    }
}

/// What a key hint does.
pub open spec fn hint_ran(s: ShellView, b: BoardView, home: Option<Seq<char>>, a: FooterAction) -> (
    ShellView,
    EffectsView,
) {
    match a {
        FooterAction::Go => gone_to(s, b),
        FooterAction::New => spawned(s, b, home),
        FooterAction::Jump => editing(s),
        FooterAction::Msg => composing(s, b),
        FooterAction::Delete => dismissed(s, b),
        FooterAction::Toggle => toggled(s, b),
        FooterAction::Quit => (s, leave()),
    }
}

/// The move is over.
pub open spec fn settled(s: ShellView) -> ShellView {
    ShellView { move_mode: None, drag_source: None, ..s }
}

/// The card on the move is dropped where it rests.
pub open spec fn dropped(s: ShellView, b: BoardView, source: Column, target: Column) -> (ShellView, EffectsView) {
    let (t, e) = match chosen(s, b) {
        Some(a) => match move_plan(a, source, target) {
            Some(p) => planned(s, p),
            None => (s, nothing()),
        },
        None => (s, nothing()),
    };
    (settled(t), EffectsView { keyboard: Keyboard::Pop, ..e })
}

/// The move is called off.
pub open spec fn called_off(s: ShellView) -> (ShellView, EffectsView) {
    (settled(quiet(s)), EffectsView { keyboard: Keyboard::Pop, ..nothing() })
}

/// An input while a card is on the move: arrows and drags choose where it rests,
/// letting go of shift, enter and a drop end the move, escape and a right click
/// call it off.
pub open spec fn move_step(s: ShellView, b: BoardView, g: Geometry, ev: Input, source: Column, target: Column) -> (
    ShellView,
    EffectsView,
) {
    let rest = |t: Column| (ShellView { move_mode: Some((source, t)), ..s }, nothing());
    match ev {
        Input::Key { key: Key::Shift, stroke: Stroke::Release, .. } => dropped(s, b, source, target),
        Input::Key { key: Key::Enter, stroke: Stroke::Press, .. } => dropped(s, b, source, target),
        Input::Key { key: Key::Esc, stroke: Stroke::Press, .. } => called_off(s),
        Input::Key { key: Key::Left, stroke: Stroke::Press, .. } => rest(slid(source, target, false)),
        Input::Key { key: Key::Right, stroke: Stroke::Press, .. } => rest(slid(source, target, true)),
        Input::Mouse { pointer: Pointer::LeftDrag, col, .. } => match column_from(g.columns@, col, 0) {
            Some(c) if stops_of(source).contains(c) => rest(c),
            _ => rest(target),
        },
        Input::Mouse { pointer: Pointer::LeftUp, .. } => dropped(s, b, source, target),
        Input::Mouse { pointer: Pointer::RightDown, .. } => called_off(s),
        _ => rest(target),
    }
}

/// An input while the context menu is open: arrows move the highlight, enter or
/// a click runs an entry, escape, a right click and a click outside close it.
pub open spec fn menu_step(
    s: ShellView,
    b: BoardView,
    g: Geometry,
    home: Option<Seq<char>>,
    ev: Input,
    m: Menu,
) -> (ShellView, EffectsView) {
    let closed = ShellView { menu: None, ..s };
    let light = |h: MenuAction| (ShellView { menu: Some(Menu { highlight: h, ..m }), ..s }, nothing());
    match ev {
        Input::Key { key: Key::Esc, stroke: Stroke::Press, .. } => (closed, nothing()),
        Input::Key { key: Key::Up, stroke: Stroke::Press, .. } => light(m.highlight.beside(false)),
        Input::Key { key: Key::Down, stroke: Stroke::Press, .. } => light(m.highlight.beside(true)),
        Input::Key { key: Key::Enter, stroke: Stroke::Press, .. } => menu_ran(
            closed,
            b,
            home,
            m.highlight,
        ),
        Input::Mouse { pointer: Pointer::LeftDown, col, row } => match entry_at(
            menu_at(g.area, m.anchor),
            col,
            row,
        ) {
            Some(i) => menu_ran(closed, b, home, MenuAction::ALL[i]),
            None => (closed, nothing()),
        },
        Input::Mouse { pointer: Pointer::RightDown, .. } => (closed, nothing()),
        _ => (s, nothing()),
    }
}

/// An input while the filter is edited: letters go into the query, escape ends
/// the editing and keeps the query, enter acts on the selection, and up and down
/// step off into the board.
pub open spec fn filter_step(s: ShellView, b: BoardView, home: Option<Seq<char>>, ev: Input) -> (
    ShellView,
    EffectsView,
) {
    let counts = counts_of(b);
    let n = total(counts);
    match ev {
        Input::Key { key, stroke: Stroke::Press, shift } => match key {
            Key::Esc => if s.launcher_mode {
                (s, leave())
            } else {
                (ShellView { filtering: false, ..s }, nothing())
            },
            Key::Enter => if shift {
                spawned(s, b, home)
            } else {
                gone_to(s, b)
            },
            Key::Backspace => (ShellView { filter: shorter(s.filter), ..s }, nothing()),
            Key::Down => if n > 0 {
                (ShellView { filtering: false, selected: 0, ..s }, nothing())
            } else {
                (s, nothing())
            },
            Key::Up => if n > 0 {
                (ShellView { filtering: false, selected: (n - 1) as usize, ..s }, nothing())
            } else {
                (s, nothing())
            },
            Key::Left => (
                ShellView { selected: col_moved(s.selected as int, counts, false) as usize, ..s },
                nothing(),
            ),
            Key::Right => (
                ShellView { selected: col_moved(s.selected as int, counts, true) as usize, ..s },
                nothing(),
            ),
            Key::Char(c) => (ShellView { filter: s.filter.push(c), ..s }, nothing()),
            _ => (s, nothing()),
        },
        _ => (s, nothing()),
    }
}

/// An input while a message is written: letters go into it, enter sends it
/// unless it is blank, and either enter or escape closes the composer.
pub open spec fn overlay_step(s: ShellView, ev: Input, c: ComposeView) -> (ShellView, EffectsView) {
    let closed = ShellView { overlay: None, ..s };
    match ev {
        Input::Key { key, stroke: Stroke::Press, .. } => match key {
            Key::Esc => (closed, nothing()),
            Key::Enter => if trimmed(c.buf).len() > 0 {
                (closed, EffectsView { task: Some(send_plan(c, trimmed(c.buf))), ..nothing() })
            } else {
                (closed, nothing())
            },
            Key::Backspace => (
                ShellView { overlay: Some(ComposeView { buf: shorter(c.buf), ..c }), ..s },
                nothing(),
            ),
            Key::Char(ch) => (
                ShellView { overlay: Some(ComposeView { buf: c.buf.push(ch), ..c }), ..s },
                nothing(),
            ),
            _ => (s, nothing()),
        },
        _ => (s, nothing()),
    }
}

/// The selected card is grabbed and rests on the next stop.
pub open spec fn grabbed(s: ShellView, b: BoardView, right: bool) -> (ShellView, EffectsView) {
    match chosen(s, b) {
        Some(a) => {
            let source = a.column();
            (
                ShellView { move_mode: Some((source, slid(source, source, right))), ..s },
                EffectsView { keyboard: Keyboard::Push, ..nothing() },
            )
        },
        None => (s, nothing()),
    }
}

/// Moving the selection by one card over the whole board; from its last card on,
/// and from its first card back, the filter comes next.
pub open spec fn walked(s: ShellView, counts: Seq<usize>, down: bool) -> (ShellView, EffectsView) {
    let n = total(counts);
    let edge = n == 0 || (if down {
        s.selected + 1 >= n
    } else {
        s.selected == 0
    });
    if edge {
        (ShellView { filtering: true, ..s }, nothing())
    } else if down {
        (ShellView { selected: (s.selected + 1) as usize, ..s }, nothing())
    } else {
        (ShellView { selected: (s.selected - 1) as usize, ..s }, nothing())
    }
}

/// A key on the board itself.
pub open spec fn key_step(s: ShellView, b: BoardView, home: Option<Seq<char>>, key: Key, shift: bool) -> (
    ShellView,
    EffectsView,
) {
    let counts = counts_of(b);
    match key {
        Key::Char('q') => (s, leave()),
        Key::Char('d') => dismissed(s, b),
        Key::Char('h') => toggled(s, b),
        Key::Char('/') => editing(s),
        Key::Char('m') => composing(s, b),
        Key::Esc => if s.launcher_mode {
            (s, leave())
        } else {
            (ShellView { filter: Seq::empty(), ..s }, nothing())
        },
        Key::Down => walked(s, counts, true),
        Key::Up => walked(s, counts, false),
        Key::Left => if shift {
            grabbed(s, b, false)
        } else {
            (
                ShellView { selected: col_moved(s.selected as int, counts, false) as usize, ..s },
                nothing(),
            )
        },
        Key::Right => if shift {
            grabbed(s, b, true)
        } else {
            (
                ShellView { selected: col_moved(s.selected as int, counts, true) as usize, ..s },
                nothing(),
            )
        },
        Key::Enter => if shift {
            spawned(s, b, home)
        } else {
            gone_to(s, b)
        },
        _ => (s, nothing()),
    }
}

/// A press of the left button on the board itself: on a key hint, on the filter,
/// or on a card, which is selected, and gone to by a double click.
pub open spec fn click_step(
    s: ShellView,
    b: BoardView,
    g: Geometry,
    scroll: Seq<usize>,
    home: Option<Seq<char>>,
    now: u128,
    col: u16,
    row: u16,
) -> (ShellView, EffectsView) {
    match button_at(g.footer, col, row) {
        Some(a) => hint_ran(s, b, home, a),
        None => if field_in(g.filter).holds(col, row) {
            editing(s)
        } else {
            match card_at(g.columns@, counts_of(b), scroll, col, row) {
                None => (s, nothing()),
                Some(k) => {
                    let idx = k as usize;
                    let (clicks, kind) = pressed(s.clicks, idx, now);
                    let t = ShellView { selected: idx, clicks, ..s };
                    let t = ShellView {
                        drag_source: match chosen(t, b) {
                            Some(a) => Some(a.column()),
                            None => None,
                        },
                        ..t
                    };
                    if kind == ClickKind::Go {
                        gone_to(t, b)
                    } else {
                        (t, nothing())
                    }
                },
            }
        },
    }
}

/// The mouse on the board itself.
pub open spec fn mouse_step(
    s: ShellView,
    b: BoardView,
    g: Geometry,
    scroll: Seq<usize>,
    home: Option<Seq<char>>,
    now: u128,
    pointer: Pointer,
    col: u16,
    row: u16,
) -> (ShellView, EffectsView) {
    let counts = counts_of(b);
    match pointer {
        Pointer::ScrollDown => (
            ShellView { selected: row_moved(s.selected as int, counts, true) as usize, ..s },
            nothing(),
        ),
        Pointer::ScrollUp => (
            ShellView { selected: row_moved(s.selected as int, counts, false) as usize, ..s },
            nothing(),
        ),
        Pointer::LeftDown => click_step(s, b, g, scroll, home, now, col, row),
        Pointer::LeftDrag => match (s.drag_source, column_from(g.columns@, col, 0)) {
            (Some(source), Some(c)) => if c != source && is_destination(c) {
                (
                    ShellView { move_mode: Some((source, c)), ..s },
                    EffectsView { keyboard: Keyboard::Push, ..nothing() },
                )
            } else {
                (s, nothing())
            },
            _ => (s, nothing()),
        },
        Pointer::LeftUp => (ShellView { drag_source: None, ..s }, nothing()),
        Pointer::RightDown => match card_at(g.columns@, counts, scroll, col, row) {
            Some(k) => (
                ShellView {
                    selected: k as usize,
                    menu: Some(Menu { anchor: (col, row), highlight: MenuAction::Go }),
                    ..s
                },
                nothing(),
            ),
            None => (s, nothing()),
        },
        Pointer::Other => (s, nothing()),
    }
}

/// What an input does.
pub open spec fn stepped(
    s: ShellView,
    b: BoardView,
    g: Geometry,
    scroll: Seq<usize>,
    home: Option<Seq<char>>,
    now: u128,
    ev: Input,
) -> (ShellView, EffectsView) {
    match s.move_mode {
        Some(m) => move_step(s, b, g, ev, m.0, m.1),
        None => match s.menu {
            Some(m) => menu_step(s, b, g, home, ev, m),
            None => if s.filtering {
                filter_step(s, b, home, ev)
            } else {
                match s.overlay {
                    Some(c) => overlay_step(s, ev, c),
                    None => match ev {
                        Input::Key { key, stroke: Stroke::Press, shift } => key_step(
                            s,
                            b,
                            home,
                            key,
                            shift,
                        ),
                        Input::Mouse { pointer, col, row } => mouse_step(
                            s,
                            b,
                            g,
                            scroll,
                            home,
                            now,
                            pointer,
                            col,
                            row,
                        ),
                        _ => (s, nothing()),
                    },
                }
            },
        },
    }
}

fn counts_in(board: &Board) -> (r: [usize; 4])
    ensures
        r@ == counts_of(board@),
        total(r@) == board@.selectable().len(),
        total(r@) <= usize::MAX,
{
    let sel = board.selectable();
    let n: usize = sel.len();
    let counts = board.column_counts();
    proof {
        lemma_board_total(board, sel@, counts);
        assert(total(counts@) == n);
        assert(counts@ =~= counts_of(board@)) by {
            assert forall|i: int| 0 <= i < 4 implies counts@[i] == counts_of(board@)[i] by {
                assert(counts[i] == board@.column(Column::ALL[i]).len());
            }
        }
    }
    counts
}

fn task_effect(t: Task) -> (r: Effects)
    ensures
        r@ == (EffectsView { task: Some(t@), ..nothing() }),
{
    Effects { quit: false, keyboard: Keyboard::Same, task: Some(t) }
}

impl Shell {
    /// The interface of a board that was just opened; a popup begins in its
    /// filter.
    pub fn new(launcher_mode: bool) -> (r: Self)
        ensures
            r@ == (ShellView {
                launcher_mode,
                selected: 0,
                status: Seq::empty(),
                filter: Seq::empty(),
                filtering: launcher_mode,
                overlay: None,
                menu: None,
                clicks: ClickView { threshold: DOUBLE_CLICK, last: None },
                move_mode: None,
                drag_source: None,
                pending: Seq::empty(),
            }),
    {
        let r = Shell {
            launcher_mode,
            selected: 0,
            status: String::new(),
            filter: String::new(),
            filtering: launcher_mode,
            overlay: None,
            menu: None,
            clicks: ClickTracker::default(),
            move_mode: None,
            drag_source: None,
            pending: Vec::new(),
        };
        assert(move_views(r.pending@) =~= Seq::<PendingMoveView>::empty());
        r
    }

    pub fn selected(&self) -> (r: usize)
        ensures
            r == self@.selected,
    {
        self.selected
    }

    pub fn status(&self) -> (r: &str)
        ensures
            r@ == self@.status,
    {
        self.status.as_str()
    }

    pub fn filter(&self) -> (r: &str)
        ensures
            r@ == self@.filter,
    {
        self.filter.as_str()
    }

    pub fn filtering(&self) -> (r: bool)
        ensures
            r == self@.filtering,
    {
        self.filtering
    }

    /// The message that is being written.
    pub fn overlay(&self) -> (r: Option<&Compose>)
        ensures
            match r {
                Some(c) => self@.overlay == Some(c@),
                None => self@.overlay is None,
            },
    {
        match &self.overlay {
            Some(c) => Some(c),
            None => None,
        }
    }

    pub fn menu(&self) -> (r: Option<Menu>)
        ensures
            r == self@.menu,
    {
        self.menu
    }

    pub fn move_mode(&self) -> (r: Option<(Column, Column)>)
        ensures
            r == self@.move_mode,
    {
        self.move_mode
    }

    fn chosen<'a>(&self, board: &'a Board) -> (r: Option<&'a Agent>)
        ensures
            match r {
                Some(a) => chosen(self@, board@) == Some(a@),
                None => chosen(self@, board@) is None,
            },
    {
        let sel = board.selectable();
        assert(agent_refs(sel@).len() == sel@.len());
        if self.selected < sel.len() {
            assert(agent_refs(sel@)[self.selected as int] == sel@[self.selected as int]@);
            Some(sel[self.selected])
        } else {
            None
        }
    }

    /// How the card on the move is called.
    pub fn move_label(&self, board: &Board) -> (r: Option<String>)
        ensures
            opt_text(r) == (match (self@.move_mode, chosen(self@, board@)) {
                (Some(_), Some(a)) => Some(called(a)),
                _ => None,
            }),
    {
        match self.move_mode {
            Some(_) => match self.chosen(board) {
                Some(a) => Some(focus_label(a)),
                None => None,
            },
            None => None,
        }
    }

    fn hush(&mut self)
        ensures
            final(self)@ == quiet(old(self)@),
    {
        self.status = String::new();
    }

    fn plan(&mut self, p: Result<Task, String>) -> (r: Effects)
        ensures
            (final(self)@, r@) == planned(old(self)@, plan_view(p)),
    {
        match p {
            Ok(t) => task_effect(t),
            Err(e) => {
                self.status = e;
                no_effect()
            },
        }
    }

    fn go(&mut self, board: &Board) -> (r: Effects)
        ensures
            (final(self)@, r@) == gone_to(old(self)@, board@),
    {
        self.hush();
        match self.chosen(board) {
            Some(a) => {
                let p = activate(a);
                self.plan(p)
            },
            None => no_effect(),
        }
    }

    fn spawn_new(&mut self, board: &Board, home: Option<&str>) -> (r: Effects)
        ensures
            (final(self)@, r@) == spawned(old(self)@, board@, opt_str(home)),
    {
        self.hush();
        match self.chosen(board) {
            Some(a) => {
                let p = spawn_beside(a, home);
                self.plan(p)
            },
            None => {
                self.status = "spawn: no agent selected (start the first agent from a terminal)".to_owned();
                no_effect()
            },
        }
    }

    fn toggle(&mut self, board: &Board) -> (r: Effects)
        ensures
            (final(self)@, r@) == toggled(old(self)@, board@),
    {
        self.hush();
        match self.chosen(board) {
            Some(a) => task_effect(toggle_placement(a)),
            None => no_effect(),
        }
    }

    fn dismiss_selected(&mut self, board: &Board) -> (r: Effects)
        ensures
            (final(self)@, r@) == dismissed(old(self)@, board@),
    {
        self.hush();
        match self.chosen(board) {
            Some(a) => Effects { quit: false, keyboard: Keyboard::Same, task: dismiss(a) },
            None => no_effect(),
        }
    }

    fn compose(&mut self, board: &Board) -> (r: Effects)
        ensures
            (final(self)@, r@) == composing(old(self)@, board@),
    {
        self.hush();
        let c = match self.chosen(board) {
            Some(a) => open_compose(a),
            None => None,
        };
        self.overlay = c;
        no_effect()
    }

    fn edit_filter(&mut self) -> (r: Effects)
        ensures
            (final(self)@, r@) == editing(old(self)@),
    {
        self.hush();
        self.filtering = true;
        no_effect()
    }

    fn run_entry(&mut self, board: &Board, home: Option<&str>, a: MenuAction) -> (r: Effects)
        ensures
            (final(self)@, r@) == menu_ran(old(self)@, board@, opt_str(home), a),
    {
        match a {
            MenuAction::Go => self.go(board),
            MenuAction::Message => self.compose(board),
            MenuAction::Spawn => self.spawn_new(board, home),
            MenuAction::ToggleHidden => self.toggle(board),
            MenuAction::Dismiss => self.dismiss_selected(board),
        }
    }

    fn run_hint(&mut self, board: &Board, home: Option<&str>, a: FooterAction) -> (r: Effects)
        ensures
            (final(self)@, r@) == hint_ran(old(self)@, board@, opt_str(home), a),
    {
        match a {
            FooterAction::Go => self.go(board),
            FooterAction::New => self.spawn_new(board, home),
            FooterAction::Jump => self.edit_filter(),
            FooterAction::Msg => self.compose(board),
            FooterAction::Delete => self.dismiss_selected(board),
            FooterAction::Toggle => self.toggle(board),
            FooterAction::Quit => quit_effect(),
        }
    }

    fn drop_card(&mut self, board: &Board, source: Column, target: Column) -> (r: Effects)
        ensures
            (final(self)@, r@) == dropped(old(self)@, board@, source, target),
    {
        let e = match self.chosen(board) {
            Some(a) => match commit_move(source, target, a) {
                Some(p) => self.plan(p),
                None => no_effect(),
            },
            None => no_effect(),
        };
        self.move_mode = None;
        self.drag_source = None;
        Effects { keyboard: Keyboard::Pop, ..e }
    }

    fn call_off(&mut self) -> (r: Effects)
        ensures
            (final(self)@, r@) == called_off(old(self)@),
    {
        self.hush();
        self.move_mode = None;
        self.drag_source = None;
        Effects { quit: false, keyboard: Keyboard::Pop, task: None }
    }

    fn rest(&mut self, source: Column, target: Column) -> (r: Effects)
        ensures
            final(self)@ == (ShellView { move_mode: Some((source, target)), ..old(self)@ }),
            r@ == nothing(),
    {
        self.move_mode = Some((source, target));
        no_effect()
    }

    fn on_move(&mut self, scene: &Scene, ev: Input, source: Column, target: Column) -> (r: Effects)
        ensures
            (final(self)@, r@) == move_step(
                old(self)@,
                scene.board@,
                *scene.geometry,
                ev,
                source,
                target,
            ),
    {
        match ev {
            Input::Key { key: Key::Shift, stroke: Stroke::Release, .. } => self.drop_card(
                scene.board,
                source,
                target,
            ),
            Input::Key { key: Key::Enter, stroke: Stroke::Press, .. } => self.drop_card(
                scene.board,
                source,
                target,
            ),
            Input::Key { key: Key::Esc, stroke: Stroke::Press, .. } => self.call_off(),
            Input::Key { key: Key::Left, stroke: Stroke::Press, .. } => self.rest(
                source,
                slide_target(source, target, false),
            ),
            Input::Key { key: Key::Right, stroke: Stroke::Press, .. } => self.rest(
                source,
                slide_target(source, target, true),
            ),
            Input::Mouse { pointer: Pointer::LeftDrag, col, .. } => match column_under(
                &scene.geometry.columns,
                col,
            ) {
                Some(c) => if is_stop(source, c) {
                    self.rest(source, c)
                } else {
                    self.rest(source, target)
                },
                None => self.rest(source, target),
            },
            Input::Mouse { pointer: Pointer::LeftUp, .. } => self.drop_card(
                scene.board,
                source,
                target,
            ),
            Input::Mouse { pointer: Pointer::RightDown, .. } => self.call_off(),
            _ => self.rest(source, target),
        }
    }

    fn on_menu(&mut self, scene: &Scene, ev: Input, m: Menu) -> (r: Effects)
        requires
            old(self)@.menu == Some(m),
        ensures
            (final(self)@, r@) == menu_step(
                old(self)@,
                scene.board@,
                *scene.geometry,
                opt_str(scene.home),
                ev,
                m,
            ),
    {
        match ev {
            Input::Key { key: Key::Esc, stroke: Stroke::Press, .. } => {
                self.menu = None;
                no_effect()
            },
            Input::Key { key: Key::Up, stroke: Stroke::Press, .. } => {
                self.menu = Some(Menu { highlight: m.highlight.turn(false), ..m });
                no_effect()
            },
            Input::Key { key: Key::Down, stroke: Stroke::Press, .. } => {
                self.menu = Some(Menu { highlight: m.highlight.turn(true), ..m });
                no_effect()
            },
            Input::Key { key: Key::Enter, stroke: Stroke::Press, .. } => {
                self.menu = None;
                self.run_entry(scene.board, scene.home, m.highlight)
            },
            Input::Mouse { pointer: Pointer::LeftDown, col, row } => {
                self.menu = None;
                let rect = menu_rect(scene.geometry.area, m.anchor);
                match menu_hit_test(rect, col, row) {
                    Some(i) => {
                        let all = MenuAction::ALL;
                        self.run_entry(scene.board, scene.home, all[i])
                    },
                    None => no_effect(),
                }
            },
            Input::Mouse { pointer: Pointer::RightDown, .. } => {
                self.menu = None;
                no_effect()
            },
            _ => no_effect(),
        }
    }

    fn select(&mut self, i: usize) -> (r: Effects)
        ensures
            final(self)@ == (ShellView { selected: i, ..old(self)@ }),
            r@ == nothing(),
    {
        self.selected = i;
        no_effect()
    }

    fn on_filter(&mut self, scene: &Scene, ev: Input) -> (r: Effects)
        ensures
            (final(self)@, r@) == filter_step(old(self)@, scene.board@, opt_str(scene.home), ev),
    {
        let counts = counts_in(scene.board);
        match ev {
            Input::Key { key, stroke: Stroke::Press, shift } => match key {
                Key::Esc => if self.launcher_mode {
                    quit_effect()
                } else {
                    self.filtering = false;
                    no_effect()
                },
                Key::Enter => if shift {
                    self.spawn_new(scene.board, scene.home)
                } else {
                    self.go(scene.board)
                },
                Key::Backspace => {
                    self.filter = drop_last_char(self.filter.as_str());
                    no_effect()
                },
                Key::Down => {
                    if !no_cards(&counts) {
                        self.filtering = false;
                        self.selected = board_entry(self.selected, &counts, true);
                    }
                    no_effect()
                },
                Key::Up => {
                    if !no_cards(&counts) {
                        self.filtering = false;
                        self.selected = board_entry(self.selected, &counts, false);
                    }
                    no_effect()
                },
                Key::Left => self.select(move_col(self.selected, &counts, false)),
                Key::Right => self.select(move_col(self.selected, &counts, true)),
                Key::Char(c) => {
                    self.filter.push(c);
                    no_effect()
                },
                _ => no_effect(),
            },
            _ => no_effect(),
        }
    }

    fn on_overlay(&mut self, ev: Input) -> (r: Effects)
        requires
            old(self)@.overlay is Some,
        ensures
            (final(self)@, r@) == overlay_step(old(self)@, ev, old(self)@.overlay->0),
    {
        match ev {
            Input::Key { key, stroke: Stroke::Press, .. } => {
                let mut slot: Option<Compose> = None;
                std::mem::swap(&mut slot, &mut self.overlay);
                let mut c = slot.unwrap();
                match key {
                    Key::Esc => no_effect(),
                    Key::Enter => {
                        let text = trim(c.buf.as_str());
                        if text.as_str().is_empty() {
                            no_effect()
                        } else {
                            task_effect(send(c, text))
                        }
                    },
                    Key::Backspace => {
                        let buf = drop_last_char(c.buf.as_str());
                        self.overlay = Some(Compose { buf, ..c });
                        no_effect()
                    },
                    Key::Char(ch) => {
                        let mut buf = c.buf;
                        buf.push(ch);
                        self.overlay = Some(Compose { target: c.target, label: c.label, buf });
                        no_effect()
                    },
                    _ => {
                        self.overlay = Some(c);
                        no_effect()
                    },
                }
            },
            _ => no_effect(),
        }
    }

    fn grab(&mut self, board: &Board, right: bool) -> (r: Effects)
        ensures
            (final(self)@, r@) == grabbed(old(self)@, board@, right),
    {
        match self.chosen(board) {
            Some(a) => {
                let source = a.column();
                self.move_mode = Some((source, initial_target(source, right)));
                Effects { quit: false, keyboard: Keyboard::Push, task: None }
            },
            None => no_effect(),
        }
    }

    fn walk(&mut self, counts: &[usize; 4], down: bool) -> (r: Effects)
        requires
            total(counts@) <= usize::MAX,
        ensures
            (final(self)@, r@) == walked(old(self)@, counts@, down),
    {
        if at_board_edge(self.selected, counts, down) {
            self.filtering = true;
            no_effect()
        } else {
            self.select(move_selection(self.selected, counts, down))
        }
    }

    fn on_key(&mut self, scene: &Scene, key: Key, shift: bool) -> (r: Effects)
        ensures
            (final(self)@, r@) == key_step(
                old(self)@,
                scene.board@,
                opt_str(scene.home),
                key,
                shift,
            ),
    {
        let counts = counts_in(scene.board);
        match key {
            Key::Char('q') => quit_effect(),
            Key::Char('d') => self.dismiss_selected(scene.board),
            Key::Char('h') => self.toggle(scene.board),
            Key::Char('/') => self.edit_filter(),
            Key::Char('m') => self.compose(scene.board),
            Key::Esc => if self.launcher_mode {
                quit_effect()
            } else {
                self.filter = String::new();
                no_effect()
            },
            Key::Down => self.walk(&counts, true),
            Key::Up => self.walk(&counts, false),
            Key::Left => if shift {
                self.grab(scene.board, false)
            } else {
                self.select(move_col(self.selected, &counts, false))
            },
            Key::Right => if shift {
                self.grab(scene.board, true)
            } else {
                self.select(move_col(self.selected, &counts, true))
            },
            Key::Enter => if shift {
                self.spawn_new(scene.board, scene.home)
            } else {
                self.go(scene.board)
            },
            _ => no_effect(),
        }
    }

    fn on_click(&mut self, scene: &Scene, col: u16, row: u16) -> (r: Effects)
        ensures
            (final(self)@, r@) == click_step(
                old(self)@,
                scene.board@,
                *scene.geometry,
                scene.scroll@,
                opt_str(scene.home),
                scene.now,
                col,
                row,
            ),
    {
        match footer_hit_test(scene.geometry, col, row) {
            Some(a) => {
                return self.run_hint(scene.board, scene.home, a);
            },
            None => {},
        }
        if filter_hit_test(scene.geometry, col, row) {
            return self.edit_filter();
        }
        let counts = counts_in(scene.board);
        match hit_in(&scene.geometry.columns, &counts, &scene.scroll, col, row) {
            None => no_effect(),
            Some(idx) => {
                self.selected = idx;
                let mut clicks = self.clicks;
                let kind = clicks.press(idx, scene.now);
                self.clicks = clicks;
                self.drag_source = match self.chosen(scene.board) {
                    Some(a) => Some(a.column()),
                    None => None,
                };
                match kind {
                    ClickKind::Go => self.go(scene.board),
                    ClickKind::Select => no_effect(),
                }
            },
        }
    }

    fn on_mouse(&mut self, scene: &Scene, pointer: Pointer, col: u16, row: u16) -> (r: Effects)
        ensures
            (final(self)@, r@) == mouse_step(
                old(self)@,
                scene.board@,
                *scene.geometry,
                scene.scroll@,
                opt_str(scene.home),
                scene.now,
                pointer,
                col,
                row,
            ),
    {
        let counts = counts_in(scene.board);
        match pointer {
            Pointer::ScrollDown => self.select(move_row(self.selected, &counts, true)),
            Pointer::ScrollUp => self.select(move_row(self.selected, &counts, false)),
            Pointer::LeftDown => self.on_click(scene, col, row),
            Pointer::LeftDrag => match self.drag_source {
                Some(source) => match column_under(&scene.geometry.columns, col) {
                    Some(c) => if c != source && c != Column::RequiresAction {
                        self.move_mode = Some((source, c));
                        Effects { quit: false, keyboard: Keyboard::Push, task: None }
                    } else {
                        no_effect()
                    },
                    None => no_effect(),
                },
                None => no_effect(),
            },
            Pointer::LeftUp => {
                self.drag_source = None;
                no_effect()
            },
            Pointer::RightDown => match hit_in(
                &scene.geometry.columns,
                &counts,
                &scene.scroll,
                col,
                row,
            ) {
                Some(idx) => {
                    self.selected = idx;
                    self.menu = Some(Menu { anchor: (col, row), highlight: MenuAction::Go });
                    no_effect()
                },
                None => no_effect(),
            },
            Pointer::Other => no_effect(),
        }
    }

    /// Takes in one input, and gives what it calls for.
    pub fn step(&mut self, scene: &Scene, ev: Input) -> (r: Effects)
        ensures
            (final(self)@, r@) == stepped(
                old(self)@,
                scene.board@,
                *scene.geometry,
                scene.scroll@,
                opt_str(scene.home),
                scene.now,
                ev,
            ),
    {
        match self.move_mode {
            Some((source, target)) => {
                return self.on_move(scene, ev, source, target);
            },
            None => {},
        }
        match self.menu {
            Some(m) => {
                return self.on_menu(scene, ev, m);
            },
            None => {},
        }
        if self.filtering {
            return self.on_filter(scene, ev);
        }
        if self.overlay.is_some() {
            return self.on_overlay(ev);
        }
        match ev {
            Input::Key { key, stroke: Stroke::Press, shift } => self.on_key(scene, key, shift),
            Input::Mouse { pointer, col, row } => self.on_mouse(scene, pointer, col, row),
            _ => no_effect(),
        }
    }
}

fn is_stop(source: Column, c: Column) -> (r: bool)
    ensures
        r == stops_of(source).contains(c),
{
    let v = stops(source);
    let mut i: usize = 0;
    while i < v.len()
        invariant
            i <= v@.len(),
            v@ == stops_of(source),
            forall|k: int| 0 <= k < i ==> v@[k] != c,
        decreases v@.len() - i,
    {
        if v[i] == c {
            return true;
        }
        i = i + 1;
    }
    false
}

fn no_cards(counts: &[usize; 4]) -> (r: bool)
    requires
        total(counts@) <= usize::MAX,
    ensures
        r == (total(counts@) == 0),
{
    proof {
        lemma_offsets(counts@);
    }
    counts[0] == 0 && counts[1] == 0 && counts[2] == 0 && counts[3] == 0
}

/// The moves without those of an agent.
pub open spec fn without_key(v: Seq<PendingMoveView>, key: Seq<char>) -> Seq<PendingMoveView> {
    v.filter(|m: PendingMoveView| m.key != key)
}

/// How the board takes a deed that ended: it says how it went, and a move that
/// went well waits for the agent from now on, in place of an earlier one.
pub open spec fn finished(s: ShellView, r: ReportView, result: Result<(), Seq<char>>, now: u128) -> (ShellView, bool) {
    match result {
        Err(e) => (ShellView { status: r.failed + e, ..s }, false),
        Ok(_) => {
            let said = ShellView {
                status: match r.done {
                    Some(d) => d,
                    None => s.status,
                },
                ..s
            };
            match r.after {
                AfterView::Nothing => (said, false),
                AfterView::LeaveLauncher => (said, s.launcher_mode),
                AfterView::Pending(key, target) => (
                    ShellView {
                        pending: without_key(s.pending, key).push(
                            PendingMoveView { key, target, since: now },
                        ),
                        ..said
                    },
                    false,
                ),
            }
        },
    }
}

/// The column of the last agent of the list with a key.
pub open spec fn column_of_key(v: Seq<AgentView>, key: Seq<char>) -> Option<Column>
    decreases v.len(),
{
    if v.len() == 0 {
        None
    } else if v.last().move_key() == key {
        Some(v.last().column())
    } else {
        column_of_key(v.drop_last(), key)
    }
}

/// A move still waits: its agent has not reached the column, and it was not
/// carried out too long ago.
pub open spec fn still_waits(m: PendingMoveView, b: BoardView, now: u128) -> bool {
    &&& column_of_key(b.selectable(), m.key) != Some(m.target)
    &&& now <= m.since + PENDING_TTL
}

/// The interface as the board changed: moves that were confirmed or took too
/// long are forgotten, and the selection stays on the board.
pub open spec fn refreshed(s: ShellView, b: BoardView, now: u128) -> ShellView {
    let n = b.selectable().len();
    ShellView {
        pending: s.pending.filter(|m: PendingMoveView| still_waits(m, b, now)),
        selected: if s.selected < n {
            s.selected
        } else if n > 0 {
            (n - 1) as usize
        } else {
            0
        },
        ..s
    }
}

fn find_column(v: &Vec<&Agent>, key: &str) -> (r: Option<Column>)
    ensures
        r == column_of_key(agent_refs(v@), key@),
{
    let ghost all = agent_refs(v@);
    let mut i: usize = v.len();
    assert(all.take(all.len() as int) =~= all);
    while i > 0
        invariant
            i <= v@.len(),
            all == agent_refs(v@),
            column_of_key(all, key@) == column_of_key(all.take(i as int), key@),
        decreases i,
    {
        assert(all.take(i as int).drop_last() =~= all.take(i - 1));
        assert(all.take(i as int).last() == v@[i - 1]@);
        let k = v[i - 1].move_key();
        if same(k.as_str(), key) {
            return Some(v[i - 1].column());
        }
        i = i - 1;
    }
    None
}

impl Shell {
    /// Takes in how a deed ended, and gives whether the board is left.
    pub fn finish(&mut self, report: Report, result: Result<(), String>, now: u128) -> (r: bool)
        ensures
            (final(self)@, r) == finished(old(self)@, report@, outcome(result), now),
    {
        match result {
            Err(e) => {
                self.status = cat(report.failed.as_str(), e.as_str());
                false
            },
            Ok(_) => {
                match report.done {
                    Some(d) => {
                        self.status = d;
                    },
                    None => {},
                }
                match report.after {
                    After::Nothing => false,
                    After::LeaveLauncher => self.launcher_mode,
                    After::Pending(key, target) => {
                        self.forget_move(key.as_str());
                        let ghost was = self.pending@;
                        self.pending.push(PendingMove { key, target, since: now });
                        assert(move_views(self.pending@) =~= move_views(was).push(
                            PendingMoveView { key: key@, target, since: now },
                        ));
                        false
                    },
                }
            },
        }
    }

    fn forget_move(&mut self, key: &str)
        ensures
            final(self)@ == (ShellView {
                pending: without_key(old(self)@.pending, key@),
                ..old(self)@
            }),
    {
        let ghost all = move_views(self.pending@);
        let ghost keep = |m: PendingMoveView| m.key != key@;
        let mut out: Vec<PendingMove> = Vec::new();
        let mut i: usize = 0;
        proof {
            reveal(Seq::filter);
            assert(move_views(out@) =~= all.take(0).filter(keep));
        }
        while i < self.pending.len()
            invariant
                i <= self.pending@.len(),
                all == move_views(self.pending@),
                keep == (|m: PendingMoveView| m.key != key@),
                move_views(out@) == all.take(i as int).filter(keep),
            decreases self.pending@.len() - i,
        {
            proof {
                reveal(Seq::filter);
                assert(all.take(i + 1).drop_last() =~= all.take(i as int));
                assert(all.take(i + 1).last() == self.pending@[i as int]@);
            }
            let m = &self.pending[i];
            let ghost was = out@;
            if !same(m.key.as_str(), key) {
                out.push(PendingMove { key: m.key.clone(), target: m.target, since: m.since });
                assert(move_views(out@) =~= move_views(was).push(m@));
            }
            i = i + 1;
        }
        assert(all.take(all.len() as int) =~= all);
        self.pending = out;
    }

    /// Takes in that the board changed.
    pub fn refresh(&mut self, board: &Board, now: u128)
        ensures
            final(self)@ == refreshed(old(self)@, board@, now),
    {
        let sel = board.selectable();
        assert(agent_refs(sel@).len() == sel@.len());
        let n: usize = sel.len();
        let ghost all = move_views(self.pending@);
        let ghost keep = |m: PendingMoveView| still_waits(m, board@, now);
        let mut out: Vec<PendingMove> = Vec::new();
        let mut i: usize = 0;
        proof {
            reveal(Seq::filter);
            assert(move_views(out@) =~= all.take(0).filter(keep));
        }
        while i < self.pending.len()
            invariant
                i <= self.pending@.len(),
                all == move_views(self.pending@),
                keep == (|m: PendingMoveView| still_waits(m, board@, now)),
                agent_refs(sel@) == board@.selectable(),
                move_views(out@) == all.take(i as int).filter(keep),
            decreases self.pending@.len() - i,
        {
            proof {
                reveal(Seq::filter);
                assert(all.take(i + 1).drop_last() =~= all.take(i as int));
                assert(all.take(i + 1).last() == self.pending@[i as int]@);
            }
            let m = &self.pending[i];
            let at = find_column(&sel, m.key.as_str());
            let reached = match at {
                Some(c) => c == m.target,
                None => false,
            };
            let young = now <= m.since || now - m.since <= PENDING_TTL;
            let ghost was = out@;
            if !reached && young {
                out.push(PendingMove { key: m.key.clone(), target: m.target, since: m.since });
                assert(move_views(out@) =~= move_views(was).push(m@));
            }
            i = i + 1;
        }
        assert(all.take(all.len() as int) =~= all);
        self.pending = out;
        if self.selected >= n {
            self.selected = if n > 0 {
                n - 1
            } else {
                0
            };
        }
    }

    /// The column that each card is being moved to, by agent.
    pub fn pending_labels(&self) -> (r: Vec<(String, String)>)
        ensures
            pairs(r@) == self@.pending.map_values(|m: PendingMoveView| (m.key, m.target.heading())),
    {
        let mut out: Vec<(String, String)> = Vec::new();
        let mut i: usize = 0;
        while i < self.pending.len()
            invariant
                i <= self.pending@.len(),
                out@.len() == i,
                forall|j: int|
                    0 <= j < i ==> (#[trigger] out@[j]).0@ == self.pending@[j].key@ && out@[j].1@
                        == self.pending@[j].target.heading(),
            decreases self.pending@.len() - i,
        {
            out.push((self.pending[i].key.clone(), self.pending[i].target.title().to_owned()));
            i = i + 1;
        }
        assert(pairs(out@) =~= self@.pending.map_values(
            |m: PendingMoveView| (m.key, m.target.heading()),
        ));
        out
    }
}

/// Of the ways in which the board takes input, at most one holds.
pub open spec fn one_mode(s: ShellView) -> bool {
    &&& s.move_mode is Some ==> s.menu is None && !s.filtering && s.overlay is None
    &&& s.menu is Some ==> !s.filtering && s.overlay is None
    &&& s.filtering ==> s.overlay is None
}

/// A state differs from another at most in what the board says.
pub open spec fn only_said(s: ShellView, t: ShellView) -> bool {
    t == (ShellView { status: t.status, ..s })
}

proof fn lemma_actions(s: ShellView, b: BoardView, home: Option<Seq<char>>)
    ensures
        only_said(s, gone_to(s, b).0),
        only_said(s, spawned(s, b, home).0),
        only_said(s, toggled(s, b).0),
        only_said(s, dismissed(s, b).0),
        composing(s, b).0 == (ShellView {
            status: Seq::empty(),
            overlay: composing(s, b).0.overlay,
            ..s
        }),
        gone_to(s, b).1.keyboard == Keyboard::Same && !gone_to(s, b).1.quit,
        spawned(s, b, home).1.keyboard == Keyboard::Same && !spawned(s, b, home).1.quit,
        toggled(s, b).1.keyboard == Keyboard::Same && !toggled(s, b).1.quit,
        dismissed(s, b).1.keyboard == Keyboard::Same && !dismissed(s, b).1.quit,
{
}

/// What every input keeps: at most one way of input, the keyboard in step with
/// the move, and a selection on the board.
pub open spec fn keeps(s: ShellView, n: nat, r: (ShellView, EffectsView)) -> bool {
    &&& one_mode(s) ==> one_mode(r.0)
    &&& r.1.keyboard == Keyboard::Push <==> s.move_mode is None && r.0.move_mode is Some
    &&& r.1.keyboard == Keyboard::Pop <==> s.move_mode is Some && r.0.move_mode is None
    &&& s.selected < n ==> r.0.selected < n
}

proof fn lemma_move_keeps(s: ShellView, b: BoardView, g: Geometry, ev: Input)
    requires
        s.move_mode is Some,
    ensures
        keeps(s, b.selectable().len(), move_step(s, b, g, ev, (s.move_mode->0).0, (s.move_mode->0).1)),
{
    let source = (s.move_mode->0).0;
    let target = (s.move_mode->0).1;
    let d = dropped(s, b, source, target);
    assert(d.0 == (ShellView { status: d.0.status, move_mode: None, drag_source: None, ..s }));
    assert(d.1.keyboard == Keyboard::Pop);
}

proof fn lemma_menu_ran_keeps(s: ShellView, b: BoardView, home: Option<Seq<char>>, a: MenuAction)
    requires
        s.menu is None,
        s.move_mode is None,
    ensures
        ({
            let r = menu_ran(s, b, home, a);
            &&& r.0 == (ShellView { status: r.0.status, overlay: r.0.overlay, ..s })
            &&& r.1.keyboard == Keyboard::Same
        }),
{
    lemma_actions(s, b, home);
}

proof fn lemma_menu_keeps(s: ShellView, b: BoardView, g: Geometry, home: Option<Seq<char>>, ev: Input)
    requires
        s.move_mode is None,
        s.menu is Some,
    ensures
        keeps(s, b.selectable().len(), menu_step(s, b, g, home, ev, s.menu->0)),
{
    let m = s.menu->0;
    let closed = ShellView { menu: None, ..s };
    lemma_menu_ran_keeps(closed, b, home, m.highlight);
    match ev {
        Input::Mouse { col, row, .. } => {
            match entry_at(menu_at(g.area, m.anchor), col, row) {
                Some(i) => {
                    lemma_menu_ran_keeps(closed, b, home, MenuAction::ALL[i]);
                },
                None => {},
            }
        },
        _ => {},
    }
}

/// The selections that a move between columns or rows may lead to.
proof fn lemma_moves(s: ShellView, b: BoardView)
    requires
        b.selectable().len() <= usize::MAX,
        s.selected < b.selectable().len(),
    ensures
        (col_moved(s.selected as int, counts_of(b), true) as usize) < b.selectable().len(),
        (col_moved(s.selected as int, counts_of(b), false) as usize) < b.selectable().len(),
        (row_moved(s.selected as int, counts_of(b), true) as usize) < b.selectable().len(),
        (row_moved(s.selected as int, counts_of(b), false) as usize) < b.selectable().len(),
        total(counts_of(b)) == b.selectable().len(),
{
    lemma_counts(b);
    law_moves_stay_on_the_board(s.selected as int, counts_of(b), true);
    law_moves_stay_on_the_board(s.selected as int, counts_of(b), false);
}

proof fn lemma_filter_keeps(s: ShellView, b: BoardView, home: Option<Seq<char>>, ev: Input)
    requires
        s.move_mode is None,
        s.menu is None,
        s.filtering,
        b.selectable().len() <= usize::MAX,
    ensures
        keeps(s, b.selectable().len(), filter_step(s, b, home, ev)),
{
    lemma_actions(s, b, home);
    lemma_counts(b);
    if s.selected < b.selectable().len() {
        lemma_moves(s, b);
    }
}

proof fn lemma_walked_keeps(s: ShellView, b: BoardView, down: bool)
    requires
        s.move_mode is None,
        s.menu is None,
        !s.filtering,
        s.overlay is None,
        b.selectable().len() <= usize::MAX,
    ensures
        keeps(s, b.selectable().len(), walked(s, counts_of(b), down)),
{
    lemma_counts(b);
}

proof fn lemma_grabbed_keeps(s: ShellView, b: BoardView, right: bool)
    requires
        s.move_mode is None,
        s.menu is None,
        !s.filtering,
        s.overlay is None,
    ensures
        keeps(s, b.selectable().len(), grabbed(s, b, right)),
{
}

proof fn lemma_key_keeps(s: ShellView, b: BoardView, home: Option<Seq<char>>, key: Key, shift: bool)
    requires
        s.move_mode is None,
        s.menu is None,
        !s.filtering,
        s.overlay is None,
        b.selectable().len() <= usize::MAX,
    ensures
        keeps(s, b.selectable().len(), key_step(s, b, home, key, shift)),
{
    let n = b.selectable().len();
    lemma_actions(s, b, home);
    if s.selected < n {
        lemma_moves(s, b);
    }
    match key {
        Key::Down => {
            lemma_walked_keeps(s, b, true);
        },
        Key::Up => {
            lemma_walked_keeps(s, b, false);
        },
        Key::Left => {
            lemma_grabbed_keeps(s, b, false);
        },
        Key::Right => {
            lemma_grabbed_keeps(s, b, true);
        },
        Key::Enter => {
            assert(keeps(s, n, spawned(s, b, home)));
            assert(keeps(s, n, gone_to(s, b)));
        },
        Key::Char(_) => {
            assert(keeps(s, n, dismissed(s, b)));
            assert(keeps(s, n, toggled(s, b)));
            assert(keeps(s, n, editing(s)));
            assert(keeps(s, n, composing(s, b)));
        },
        _ => {},
    }
}

proof fn lemma_click_keeps(
    s: ShellView,
    b: BoardView,
    g: Geometry,
    scroll: Seq<usize>,
    home: Option<Seq<char>>,
    now: u128,
    col: u16,
    row: u16,
)
    requires
        s.move_mode is None,
        s.menu is None,
        !s.filtering,
        s.overlay is None,
        b.selectable().len() <= usize::MAX,
        scroll.len() == 4,
    ensures
        keeps(s, b.selectable().len(), click_step(s, b, g, scroll, home, now, col, row)),
{
    lemma_actions(s, b, home);
    lemma_counts(b);
    law_hit_is_selectable(g.columns@, counts_of(b), scroll, col, row);
    match card_at(g.columns@, counts_of(b), scroll, col, row) {
        Some(k) => {
            let idx = k as usize;
            let (clicks, kind) = pressed(s.clicks, idx, now);
            let t = ShellView { selected: idx, clicks, ..s };
            let t = ShellView {
                drag_source: match chosen(t, b) {
                    Some(a) => Some(a.column()),
                    None => None,
                },
                ..t
            };
            lemma_actions(t, b, home);
        },
        None => {},
    }
}

proof fn lemma_mouse_keeps(
    s: ShellView,
    b: BoardView,
    g: Geometry,
    scroll: Seq<usize>,
    home: Option<Seq<char>>,
    now: u128,
    pointer: Pointer,
    col: u16,
    row: u16,
)
    requires
        s.move_mode is None,
        s.menu is None,
        !s.filtering,
        s.overlay is None,
        b.selectable().len() <= usize::MAX,
        scroll.len() == 4,
    ensures
        keeps(
            s,
            b.selectable().len(),
            mouse_step(s, b, g, scroll, home, now, pointer, col, row),
        ),
{
    lemma_click_keeps(s, b, g, scroll, home, now, col, row);
    lemma_counts(b);
    law_hit_is_selectable(g.columns@, counts_of(b), scroll, col, row);
    if s.selected < b.selectable().len() {
        lemma_moves(s, b);
    }
}

proof fn lemma_step_keeps(
    s: ShellView,
    b: BoardView,
    g: Geometry,
    scroll: Seq<usize>,
    home: Option<Seq<char>>,
    now: u128,
    ev: Input,
)
    requires
        b.selectable().len() <= usize::MAX,
        scroll.len() == 4,
    ensures
        keeps(s, b.selectable().len(), stepped(s, b, g, scroll, home, now, ev)),
{
    if s.move_mode is Some {
        lemma_move_keeps(s, b, g, ev);
    } else if s.menu is Some {
        lemma_menu_keeps(s, b, g, home, ev);
    } else if s.filtering {
        lemma_filter_keeps(s, b, home, ev);
    } else if s.overlay is Some {
        assert(keeps(s, b.selectable().len(), overlay_step(s, ev, s.overlay->0)));
    } else {
        match ev {
            Input::Key { key, stroke: Stroke::Press, shift } => {
                lemma_key_keeps(s, b, home, key, shift);
            },
            Input::Mouse { pointer, col, row } => {
                lemma_mouse_keeps(s, b, g, scroll, home, now, pointer, col, row);
            },
            _ => {},
        }
    }
}

/// The ways in which the board takes input exclude each other: no input ever
/// opens a second one.
pub proof fn law_modes_exclude_each_other(
    s: ShellView,
    b: BoardView,
    g: Geometry,
    scroll: Seq<usize>,
    home: Option<Seq<char>>,
    now: u128,
    ev: Input,
)
    requires
        b.selectable().len() <= usize::MAX,
        scroll.len() == 4,
        one_mode(s),
    ensures
        one_mode(stepped(s, b, g, scroll, home, now, ev).0),
{
    lemma_step_keeps(s, b, g, scroll, home, now, ev);
}

/// Whether a click on a cell of the board itself hits the hint that leaves it.
pub open spec fn clicks_quit(g: Geometry, ev: Input) -> bool {
    ev matches Input::Mouse { pointer: Pointer::LeftDown, col, row } && button_at(g.footer, col, row) == Some(
        FooterAction::Quit,
    )
}

/// A board that is no popup is left in one way only: by its own key or hint,
/// while nothing else takes the input. In particular escape never leaves it.
pub proof fn law_only_quit_leaves_the_board(
    s: ShellView,
    b: BoardView,
    g: Geometry,
    scroll: Seq<usize>,
    home: Option<Seq<char>>,
    now: u128,
    ev: Input,
)
    requires
        !s.launcher_mode,
    ensures
        stepped(s, b, g, scroll, home, now, ev).1.quit <==> {
            &&& s.move_mode is None && s.menu is None && !s.filtering && s.overlay is None
            &&& (ev matches Input::Key { key: Key::Char('q'), stroke: Stroke::Press, .. }) || clicks_quit(g, ev)
        },
        ev matches Input::Key { key: Key::Esc, .. } ==> !stepped(s, b, g, scroll, home, now, ev).1.quit,
{
}

/// A popup is left by one press of escape, unless a card is on the move or the
/// menu or the composer is open, which that press closes.
pub proof fn law_escape_leaves_a_popup(
    s: ShellView,
    b: BoardView,
    g: Geometry,
    scroll: Seq<usize>,
    home: Option<Seq<char>>,
    now: u128,
    shift: bool,
)
    requires
        s.launcher_mode,
        one_mode(s),
    ensures
        ({
            let ev = Input::Key { key: Key::Esc, stroke: Stroke::Press, shift };
            let (t, e) = stepped(s, b, g, scroll, home, now, ev);
            &&& e.quit == (s.move_mode is None && s.menu is None && s.overlay is None)
            &&& !e.quit ==> t.move_mode is None && t.menu is None && t.overlay is None
        }),
{
}

/// The keyboard reports more exactly while a card is on the move.
pub proof fn law_keyboard_follows_the_move(
    s: ShellView,
    b: BoardView,
    g: Geometry,
    scroll: Seq<usize>,
    home: Option<Seq<char>>,
    now: u128,
    ev: Input,
)
    requires
        b.selectable().len() <= usize::MAX,
        scroll.len() == 4,
    ensures
        ({
            let (t, e) = stepped(s, b, g, scroll, home, now, ev);
            &&& e.keyboard == Keyboard::Push <==> s.move_mode is None && t.move_mode is Some
            &&& e.keyboard == Keyboard::Pop <==> s.move_mode is Some && t.move_mode is None
        }),
{
    lemma_step_keeps(s, b, g, scroll, home, now, ev);
}

/// With no card to act on and no message being written, no input calls for
/// anything to be done outside.
pub proof fn law_deeds_need_a_selection(
    s: ShellView,
    b: BoardView,
    g: Geometry,
    scroll: Seq<usize>,
    home: Option<Seq<char>>,
    now: u128,
    ev: Input,
)
    requires
        b.selectable().len() == 0,
        s.overlay is None,
    ensures
        stepped(s, b, g, scroll, home, now, ev).1.task is None,
{
}

/// The selection stays on the board: where there are cards, no input selects
/// past them.
pub proof fn law_selection_stays_on_the_board(
    s: ShellView,
    b: BoardView,
    g: Geometry,
    scroll: Seq<usize>,
    home: Option<Seq<char>>,
    now: u128,
    ev: Input,
)
    requires
        b.selectable().len() <= usize::MAX,
        s.selected < b.selectable().len(),
        scroll.len() == 4,
    ensures
        stepped(s, b, g, scroll, home, now, ev).0.selected < b.selectable().len(),
{
    lemma_step_keeps(s, b, g, scroll, home, now, ev);
}

proof fn lemma_counts(b: BoardView)
    requires
        b.selectable().len() <= usize::MAX,
    ensures
        total(counts_of(b)) == b.selectable().len(),
        counts_of(b).len() == 4,
{
    let counts = counts_of(b);
    law_counts_add_up(b);
    lemma_offsets(counts);
    assert(counts[0] == b.column(Column::ALL[0]).len());
    assert(counts[1] == b.column(Column::ALL[1]).len());
    assert(counts[2] == b.column(Column::ALL[2]).len());
    assert(counts[3] == b.column(Column::ALL[3]).len());
}

/// The board never fakes a move: whatever is carried out, a card's column is its
/// agent's own, and a move is forgotten once the agent reached its column or
/// when it took too long.
pub proof fn law_moves_are_confirmed_or_forgotten(s: ShellView, b: BoardView, now: u128, m: PendingMoveView)
    ensures
        refreshed(s, b, now).pending.contains(m) ==> {
            &&& s.pending.contains(m)
            &&& column_of_key(b.selectable(), m.key) != Some(m.target)
            &&& now <= m.since + PENDING_TTL
        },
        s.pending.contains(m) && still_waits(m, b, now) ==> refreshed(s, b, now).pending.contains(m),
{
    let keep = |x: PendingMoveView| still_waits(x, b, now);
    lemma_filter_contains(s.pending, keep, m);
}

proof fn lemma_filter_contains<A>(s: Seq<A>, p: spec_fn(A) -> bool, x: A)
    ensures
        s.filter(p).contains(x) == (s.contains(x) && p(x)),
    decreases s.len(),
{
    reveal(Seq::filter);
    if s.len() > 0 {
        let t = s.drop_last();
        lemma_filter_contains(t, p, x);
        let f = t.filter(p);
        if s.contains(x) && p(x) {
            let i = choose|i: int| 0 <= i < s.len() && s[i] == x;
            if i < t.len() {
                assert(t[i] == x);
                assert(t.contains(x));
                let j = choose|j: int| 0 <= j < f.len() && f[j] == x;
                assert(s.filter(p)[j] == x);
            } else {
                assert(s.filter(p)[f.len() as int] == x);
            }
        }
        if s.filter(p).contains(x) {
            let j = choose|j: int| 0 <= j < s.filter(p).len() && s.filter(p)[j] == x;
            if j < f.len() {
                assert(f[j] == x);
                assert(f.contains(x));
                let i = choose|i: int| 0 <= i < t.len() && t[i] == x;
                assert(s[i] == x);
            } else {
                assert(s[s.len() - 1] == x);
            }
        }
    }
}

/// The board is shown with nothing open over it.
pub open spec fn at_rest(s: ShellView) -> bool {
    s.move_mode is None && s.menu is None && !s.filtering && s.overlay is None
}

/// What came of asking for a plan: the plan's deed where there is one, and the
/// words of the refusal where there is not. Nothing else of the board changes but
/// what it has to say.
pub open spec fn asked_for(
    s: ShellView,
    r: (ShellView, EffectsView),
    p: Result<TaskView, Seq<char>>,
) -> bool {
    &&& only_said(s, r.0)
    &&& !r.1.quit && r.1.keyboard == Keyboard::Same
    &&& p matches Ok(t) ==> r.1.task == Some(t) && r.0.status.len() == 0
    &&& p matches Err(e) ==> r.1.task is None && r.0.status == e
}

/// The keys act on the selected card: enter goes to it, with shift a new agent is
/// started beside it, `d` dismisses it, `h` puts it on the other side and `m`
/// writes to it. Nothing else changes by them.
pub proof fn law_keys_act_on_the_selected_card(
    s: ShellView,
    b: BoardView,
    g: Geometry,
    scroll: Seq<usize>,
    home: Option<Seq<char>>,
    now: u128,
    shift: bool,
)
    requires
        at_rest(s),
        s.selected < b.selectable().len(),
    ensures
        ({
            let a = b.selectable()[s.selected as int];
            let did = |key: Key, shift: bool|
                stepped(
                    s,
                    b,
                    g,
                    scroll,
                    home,
                    now,
                    Input::Key { key, stroke: Stroke::Press, shift },
                );
            &&& asked_for(s, did(Key::Enter, false), go_plan(a))
            &&& asked_for(s, did(Key::Enter, true), spawn_plan(a, home))
            &&& asked_for(s, did(Key::Char('h'), shift), Ok(toggle_plan(a)))
            &&& only_said(s, did(Key::Char('d'), shift).0)
            &&& did(Key::Char('d'), shift).1 == (EffectsView { task: dismiss_plan(a), ..nothing() })
            &&& did(Key::Char('m'), shift) == (
                ShellView { overlay: compose_to(a), status: Seq::empty(), ..s },
                nothing(),
            )
        }),
{
}

/// The other keys: `/` edits the filter, `q` leaves, and escape takes the filter
/// away, or leaves where the board is a popup. Up and down walk over all the
/// cards, one by one, and from either end to the filter; left and right go to the
/// next column, and with shift take the card along. None of them does anything
/// to an agent.
pub proof fn law_other_keys_only_look_around(
    s: ShellView,
    b: BoardView,
    g: Geometry,
    scroll: Seq<usize>,
    home: Option<Seq<char>>,
    now: u128,
    shift: bool,
    right: bool,
)
    requires
        at_rest(s),
        s.selected < b.selectable().len(),
        b.selectable().len() <= usize::MAX,
    ensures
        ({
            let n = b.selectable().len();
            let did = |key: Key, shift: bool|
                stepped(
                    s,
                    b,
                    g,
                    scroll,
                    home,
                    now,
                    Input::Key { key, stroke: Stroke::Press, shift },
                );
            let side = if right {
                Key::Right
            } else {
                Key::Left
            };
            let c = b.selectable()[s.selected as int].column();
            &&& did(Key::Char('/'), shift) == (
                ShellView { filtering: true, status: Seq::empty(), ..s },
                nothing(),
            )
            &&& did(Key::Char('q'), shift) == (s, EffectsView { quit: true, ..nothing() })
            &&& !s.launcher_mode ==> did(Key::Esc, shift) == (
                ShellView { filter: Seq::empty(), ..s },
                nothing(),
            )
            &&& s.launcher_mode ==> did(Key::Esc, shift) == (
                s,
                EffectsView { quit: true, ..nothing() },
            )
            &&& did(Key::Down, shift) == (if s.selected + 1 < n {
                (ShellView { selected: (s.selected + 1) as usize, ..s }, nothing())
            } else {
                (ShellView { filtering: true, ..s }, nothing())
            })
            &&& did(Key::Up, shift) == (if s.selected > 0 {
                (ShellView { selected: (s.selected - 1) as usize, ..s }, nothing())
            } else {
                (ShellView { filtering: true, ..s }, nothing())
            })
            &&& did(side, false) == (
                ShellView {
                    selected: col_moved(s.selected as int, counts_of(b), right) as usize,
                    ..s
                },
                nothing(),
            )
            &&& did(side, true) == (
                ShellView { move_mode: Some((c, slid(c, c, right))), ..s },
                EffectsView { keyboard: Keyboard::Push, ..nothing() },
            )
        }),
{
    lemma_counts(b);
}

/// What an entry of the menu is for has a key of its own, and choosing the entry
/// does what the key does on the board once the menu is closed.
pub proof fn law_menu_does_what_the_keys_do(
    s: ShellView,
    b: BoardView,
    g: Geometry,
    scroll: Seq<usize>,
    home: Option<Seq<char>>,
    now: u128,
    m: Menu,
    shift: bool,
)
    requires
        at_rest(ShellView { menu: None, ..s }),
        s.menu == Some(m),
    ensures
        ({
            let t = ShellView { menu: None, ..s };
            let chose = stepped(
                s,
                b,
                g,
                scroll,
                home,
                now,
                Input::Key { key: Key::Enter, stroke: Stroke::Press, shift },
            );
            let key = |key: Key, shift: bool|
                stepped(
                    t,
                    b,
                    g,
                    scroll,
                    home,
                    now,
                    Input::Key { key, stroke: Stroke::Press, shift },
                );
            &&& m.highlight == MenuAction::Go ==> chose == key(Key::Enter, false)
            &&& m.highlight == MenuAction::Spawn ==> chose == key(Key::Enter, true)
            &&& m.highlight == MenuAction::Message ==> chose == key(Key::Char('m'), shift)
            &&& m.highlight == MenuAction::ToggleHidden ==> chose == key(Key::Char('h'), shift)
            &&& m.highlight == MenuAction::Dismiss ==> chose == key(Key::Char('d'), shift)
            &&& chose.0.menu is None
        }),
{
}

/// Keys move through the open menu and escape closes it, which does nothing
/// else; a click on an entry chooses that entry, and one beside it closes.
pub proof fn law_menu_is_walked_and_closed(
    s: ShellView,
    b: BoardView,
    g: Geometry,
    scroll: Seq<usize>,
    home: Option<Seq<char>>,
    now: u128,
    m: Menu,
    shift: bool,
    col: u16,
    row: u16,
    i: int,
)
    requires
        s.move_mode is None,
        s.menu == Some(m),
    ensures
        ({
            let did = |ev: Input| stepped(s, b, g, scroll, home, now, ev);
            let click = did(Input::Mouse { pointer: Pointer::LeftDown, col, row });
            let hit = entry_at(menu_at(g.area, m.anchor), col, row);
            &&& did(Input::Key { key: Key::Esc, stroke: Stroke::Press, shift }) == (
                ShellView { menu: None, ..s },
                nothing(),
            )
            &&& did(Input::Key { key: Key::Down, stroke: Stroke::Press, shift }) == (
                ShellView {
                    menu: Some(Menu { anchor: m.anchor, highlight: m.highlight.beside(true) }),
                    ..s
                },
                nothing(),
            )
            &&& did(Input::Key { key: Key::Up, stroke: Stroke::Press, shift }) == (
                ShellView {
                    menu: Some(Menu { anchor: m.anchor, highlight: m.highlight.beside(false) }),
                    ..s
                },
                nothing(),
            )
            &&& hit is None ==> click == (ShellView { menu: None, ..s }, nothing())
            &&& hit == Some(i) && 0 <= i < 5 ==> click == stepped(
                ShellView {
                    menu: Some(Menu { anchor: m.anchor, highlight: MenuAction::ALL[i] }),
                    ..s
                },
                b,
                g,
                scroll,
                home,
                now,
                Input::Key { key: Key::Enter, stroke: Stroke::Press, shift },
            )
        }),
{
    let h = Menu { anchor: m.anchor, highlight: MenuAction::ALL[i] };
    let t = ShellView { menu: Some(h), ..s };
    assert((ShellView { menu: None, ..t }) == (ShellView { menu: None, ..s }));
}

/// A hint that is clicked does what the key that it names does.
pub proof fn law_hints_do_what_their_keys_do(
    s: ShellView,
    b: BoardView,
    g: Geometry,
    scroll: Seq<usize>,
    home: Option<Seq<char>>,
    now: u128,
    col: u16,
    row: u16,
    shift: bool,
)
    requires
        at_rest(s),
    ensures
        ({
            let click = stepped(
                s,
                b,
                g,
                scroll,
                home,
                now,
                Input::Mouse { pointer: Pointer::LeftDown, col, row },
            );
            let key = |key: Key, shift: bool|
                stepped(
                    s,
                    b,
                    g,
                    scroll,
                    home,
                    now,
                    Input::Key { key, stroke: Stroke::Press, shift },
                );
            button_at(g.footer, col, row) matches Some(f) ==> {
                &&& f == FooterAction::Go ==> click == key(Key::Enter, false)
                &&& f == FooterAction::New ==> click == key(Key::Enter, true)
                &&& f == FooterAction::Jump ==> click == key(Key::Char('/'), shift)
                &&& f == FooterAction::Msg ==> click == key(Key::Char('m'), shift)
                &&& f == FooterAction::Delete ==> click == key(Key::Char('d'), shift)
                &&& f == FooterAction::Toggle ==> click == key(Key::Char('h'), shift)
                &&& f == FooterAction::Quit ==> click == key(Key::Char('q'), shift)
            }
        }),
{
}

/// A press on a card selects that card and remembers where a drag would start; a
/// second one at once goes to it. A press on the field of the filter edits it, and
/// one on nothing does nothing. The wheel walks along the column, and the right
/// button opens the menu on the card under it.
pub proof fn law_mouse_acts_on_what_it_points_at(
    s: ShellView,
    b: BoardView,
    g: Geometry,
    scroll: Seq<usize>,
    home: Option<Seq<char>>,
    now: u128,
    col: u16,
    row: u16,
    k: usize,
)
    requires
        at_rest(s),
        button_at(g.footer, col, row) is None,
    ensures
        ({
            let did = |pointer: Pointer|
                stepped(s, b, g, scroll, home, now, Input::Mouse { pointer, col, row });
            let on_field = field_in(g.filter).holds(col, row);
            let hit = card_at(g.columns@, counts_of(b), scroll, col, row);
            let (t, e) = did(Pointer::LeftDown);
            &&& on_field ==> (t, e) == (
                ShellView { filtering: true, status: Seq::empty(), ..s },
                nothing(),
            )
            &&& !on_field && hit is None ==> (t, e) == (s, nothing())
            &&& !on_field && hit == Some(k as int) && k < b.selectable().len() ==> {
                &&& t.selected == k
                &&& t.drag_source == Some(b.selectable()[k as int].column())
                &&& t.clicks == pressed(s.clicks, k, now).0
                &&& pressed(s.clicks, k, now).1 == ClickKind::Select ==> e == nothing() && t.status
                    == s.status
                &&& pressed(s.clicks, k, now).1 == ClickKind::Go ==> (go_plan(
                    b.selectable()[k as int],
                ) matches Ok(task) ==> e.task == Some(task))
                &&& t.filter == s.filter && t.pending == s.pending && at_rest(t)
            }
            &&& did(Pointer::ScrollDown) == (
                ShellView {
                    selected: row_moved(s.selected as int, counts_of(b), true) as usize,
                    ..s
                },
                nothing(),
            )
            &&& did(Pointer::ScrollUp) == (
                ShellView {
                    selected: row_moved(s.selected as int, counts_of(b), false) as usize,
                    ..s
                },
                nothing(),
            )
            &&& hit == Some(k as int) ==> did(Pointer::RightDown) == (
                ShellView {
                    selected: k,
                    menu: Some(Menu { anchor: (col, row), highlight: MenuAction::Go }),
                    ..s
                },
                nothing(),
            )
            &&& hit is None ==> did(Pointer::RightDown) == (s, nothing())
            &&& did(Pointer::LeftUp) == (ShellView { drag_source: None, ..s }, nothing())
        }),
{
}

/// A card that is dragged out of its column is moved to the column under the
/// mouse, where one can be moved there, and stays where it is otherwise.
pub proof fn law_drag_moves_the_card(
    s: ShellView,
    b: BoardView,
    g: Geometry,
    scroll: Seq<usize>,
    home: Option<Seq<char>>,
    now: u128,
    col: u16,
    row: u16,
    source: Column,
    over: Column,
)
    requires
        at_rest(s),
        s.drag_source == Some(source),
        column_from(g.columns@, col, 0) == Some(over),
    ensures
        stepped(
            s,
            b,
            g,
            scroll,
            home,
            now,
            Input::Mouse { pointer: Pointer::LeftDrag, col, row },
        ) == (if over != source && over != Column::RequiresAction {
            (
                ShellView { move_mode: Some((source, over)), ..s },
                EffectsView { keyboard: Keyboard::Push, ..nothing() },
            )
        } else {
            (s, nothing())
        }),
{
}

/// A card in hand is dropped where it rests when shift is let go, on enter, or
/// when the mouse is: the selected agent is made to do what puts it there, or
/// nothing where the drop means none. Escape and the right button put it back.
/// Either way nothing is in hand any more.
pub proof fn law_card_in_hand_is_dropped_or_put_back(
    s: ShellView,
    b: BoardView,
    g: Geometry,
    scroll: Seq<usize>,
    home: Option<Seq<char>>,
    now: u128,
    source: Column,
    target: Column,
    shift: bool,
    col: u16,
    row: u16,
)
    requires
        s.move_mode == Some((source, target)),
        s.selected < b.selectable().len(),
    ensures
        ({
            let did = |ev: Input| stepped(s, b, g, scroll, home, now, ev);
            let drop = did(Input::Key { key: Key::Enter, stroke: Stroke::Press, shift });
            let back = did(Input::Key { key: Key::Esc, stroke: Stroke::Press, shift });
            let p = move_plan(b.selectable()[s.selected as int], source, target);
            &&& did(Input::Key { key: Key::Shift, stroke: Stroke::Release, shift }) == drop
            &&& did(Input::Mouse { pointer: Pointer::LeftUp, col, row }) == drop
            &&& did(Input::Mouse { pointer: Pointer::RightDown, col, row }) == back
            &&& drop.0.move_mode is None && back.0.move_mode is None
            &&& drop.0.drag_source is None && back.0.drag_source is None
            &&& back.1.task is None
            &&& p is None ==> drop.1.task is None
            &&& p matches Some(Ok(t)) ==> drop.1.task == Some(t)
            &&& p matches Some(Err(e)) ==> drop.1.task is None && drop.0.status == e
            &&& drop.0.selected == s.selected && drop.0.filter == s.filter && drop.0.pending == s.pending
        }),
{
}

/// A card in hand slides from stop to stop with the arrow keys and follows the
/// mouse to the columns where it can rest; nothing is done to the agent before it
/// is dropped.
pub proof fn law_card_in_hand_slides(
    s: ShellView,
    b: BoardView,
    g: Geometry,
    scroll: Seq<usize>,
    home: Option<Seq<char>>,
    now: u128,
    source: Column,
    target: Column,
    shift: bool,
    right: bool,
    col: u16,
    row: u16,
)
    requires
        s.move_mode == Some((source, target)),
    ensures
        ({
            let side = if right {
                Key::Right
            } else {
                Key::Left
            };
            let over = column_from(g.columns@, col, 0);
            &&& stepped(
                s,
                b,
                g,
                scroll,
                home,
                now,
                Input::Key { key: side, stroke: Stroke::Press, shift },
            ) == (
                ShellView { move_mode: Some((source, slid(source, target, right))), ..s },
                nothing(),
            )
            &&& stepped(
                s,
                b,
                g,
                scroll,
                home,
                now,
                Input::Mouse { pointer: Pointer::LeftDrag, col, row },
            ) == (
                ShellView {
                    move_mode: Some(
                        (
                            source,
                            if over is Some && stops_of(source).contains(over->0) {
                                over->0
                            } else {
                                target
                            },
                        ),
                    ),
                    ..s
                },
                nothing(),
            )
        }),
{
}

/// What is typed while the filter is edited goes into the filter, character by
/// character, and backspace takes the last one back. Enter goes to the selected
/// card, with shift starts one beside it, and escape ends the editing and keeps
/// the filter, or leaves a popup.
pub proof fn law_typing_edits_the_filter(
    s: ShellView,
    b: BoardView,
    g: Geometry,
    scroll: Seq<usize>,
    home: Option<Seq<char>>,
    now: u128,
    c: char,
    shift: bool,
)
    requires
        s.move_mode is None,
        s.menu is None,
        s.filtering,
    ensures
        ({
            let did = |key: Key, shift: bool|
                stepped(
                    s,
                    b,
                    g,
                    scroll,
                    home,
                    now,
                    Input::Key { key, stroke: Stroke::Press, shift },
                );
            &&& did(Key::Char(c), shift) == (ShellView { filter: s.filter.push(c), ..s }, nothing())
            &&& s.filter.len() > 0 ==> did(Key::Backspace, shift) == (
                ShellView { filter: s.filter.drop_last(), ..s },
                nothing(),
            )
            &&& s.filter.len() == 0 ==> did(Key::Backspace, shift) == (s, nothing())
            &&& !s.launcher_mode ==> did(Key::Esc, shift) == (
                ShellView { filtering: false, ..s },
                nothing(),
            )
            &&& s.launcher_mode ==> did(Key::Esc, shift) == (
                s,
                EffectsView { quit: true, ..nothing() },
            )
            &&& s.selected < b.selectable().len() ==> asked_for(
                s,
                did(Key::Enter, false),
                go_plan(b.selectable()[s.selected as int]),
            ) && asked_for(
                s,
                did(Key::Enter, true),
                spawn_plan(b.selectable()[s.selected as int], home),
            )
        }),
{
}

/// A message is typed character by character and sent with enter, without the
/// blanks around it; a blank one is not sent, and escape throws it away. Sent or
/// not, it is no longer open.
pub proof fn law_message_is_typed_and_sent(
    s: ShellView,
    b: BoardView,
    g: Geometry,
    scroll: Seq<usize>,
    home: Option<Seq<char>>,
    now: u128,
    c: ComposeView,
    ch: char,
    shift: bool,
)
    requires
        s.move_mode is None,
        s.menu is None,
        !s.filtering,
        s.overlay == Some(c),
    ensures
        ({
            let did = |key: Key|
                stepped(
                    s,
                    b,
                    g,
                    scroll,
                    home,
                    now,
                    Input::Key { key, stroke: Stroke::Press, shift },
                );
            &&& did(Key::Char(ch)) == (
                ShellView {
                    overlay: Some(
                        ComposeView { target: c.target, label: c.label, buf: c.buf.push(ch) },
                    ),
                    ..s
                },
                nothing(),
            )
            &&& c.buf.len() > 0 ==> did(Key::Backspace) == (
                ShellView {
                    overlay: Some(
                        ComposeView { target: c.target, label: c.label, buf: c.buf.drop_last() },
                    ),
                    ..s
                },
                nothing(),
            )
            &&& did(Key::Esc) == (ShellView { overlay: None, ..s }, nothing())
            &&& did(Key::Enter).0 == (ShellView { overlay: None, ..s })
            &&& trimmed(c.buf).len() == 0 ==> did(Key::Enter).1.task is None
            &&& trimmed(c.buf).len() > 0 ==> did(Key::Enter).1.task == Some(
                send_plan(c, trimmed(c.buf)),
            )
        }),
{
}

/// What is said of a deed is what its report says: the words for a failure with
/// the failure behind them, and nothing else then; what it is called where it
/// went well. A popup is left only then. A move that was made waits under its
/// agent, in place of an earlier one of that agent, and the others wait on.
pub proof fn law_deed_is_reported_as_it_went(
    s: ShellView,
    r: ReportView,
    e: Seq<char>,
    now: u128,
    other: PendingMoveView,
)
    ensures
        finished(s, r, Err(e), now) == (ShellView { status: r.failed + e, ..s }, false),
        ({
            let (t, left) = finished(s, r, Ok(()), now);
            &&& r.done matches Some(d) ==> t.status == d
            &&& r.done is None ==> t.status == s.status
            &&& left <==> r.after == AfterView::LeaveLauncher && s.launcher_mode
            &&& !(r.after is Pending) ==> t.pending == s.pending
            &&& r.after matches AfterView::Pending(key, target) ==> {
                &&& t.pending.contains(PendingMoveView { key, target, since: now })
                &&& other.key != key ==> t.pending.contains(other) == s.pending.contains(other)
                &&& other.key == key && t.pending.contains(other) ==> other.target == target
                    && other.since == now
            }
            &&& t == (ShellView { status: t.status, pending: t.pending, ..s })
        }),
{
    if r.after is Pending {
        let key = r.after->Pending_0;
        let target = r.after->Pending_1;
        let m = PendingMoveView { key, target, since: now };
        let p = |m: PendingMoveView| m.key != key;
        let q = s.pending.filter(p);
        let t = q.push(m);
        assert(t[q.len() as int] == m);
        if s.pending.contains(other) && p(other) {
            let k = choose|k: int| 0 <= k < s.pending.len() && s.pending[k] == other;
            s.pending.lemma_filter_contains(p, k);
            let j = choose|j: int| 0 <= j < q.len() && q[j] == other;
            assert(t[j] == other);
        }
        if t.contains(other) {
            let j = choose|j: int| 0 <= j < t.len() && t[j] == other;
            if j < q.len() {
                assert(q[j] == other);
                s.pending.lemma_filter_pred(p, j);
                assert(q.contains(other));
                s.pending.lemma_filter_contains_rev(p, other);
            }
        }
    }
}

/// The selection stays on its place as long as there is a card, and on the last
/// card otherwise.
pub proof fn law_selection_follows_the_board(s: ShellView, b: BoardView, now: u128)
    requires
        b.selectable().len() <= usize::MAX,
    ensures
        s.selected < b.selectable().len() ==> refreshed(s, b, now).selected == s.selected,
        s.selected >= b.selectable().len() && b.selectable().len() > 0 ==> refreshed(
            s,
            b,
            now,
        ).selected + 1 == b.selectable().len(),
        b.selectable().len() == 0 ==> refreshed(s, b, now).selected == 0,
        refreshed(s, b, now).filter == s.filter,
        refreshed(s, b, now).status == s.status,
        refreshed(s, b, now).move_mode == s.move_mode,
        PENDING_TTL == 5 * 1000000000,
{
}

/// The column that a move is held against is that of the agent under its key, and
/// there is none where no agent has it.
pub proof fn law_move_is_held_against_its_agent(v: Seq<AgentView>, key: Seq<char>, k: int)
    ensures
        0 <= k < v.len() && v[k].move_key() == key && (forall|i: int|
            k < i < v.len() ==> (#[trigger] v[i]).move_key() != key) ==> column_of_key(v, key) == Some(
            v[k].column(),
        ),
        (forall|i: int| 0 <= i < v.len() ==> (#[trigger] v[i]).move_key() != key) ==> column_of_key(
            v,
            key,
        ) is None,
    decreases v.len(),
{
    if v.len() > 0 {
        let t = v.drop_last();
        assert forall|i: int| 0 <= i < t.len() implies t[i] == v[i] by {}
        assert(v[v.len() - 1] == v.last());
        law_move_is_held_against_its_agent(t, key, k);
    }
}

} // verus!

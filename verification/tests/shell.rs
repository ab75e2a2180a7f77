//! What keys and clicks do on the board.
use corral::board::card::CardMeta;
use corral::board::draw;
use corral::board::frame::frame;
use corral::board::geometry::{geometry, Geometry, Rect};
use corral::board::plan::{commit_move, dismiss, open_compose, send, spawn_beside, After, Deed};
use corral::board::shell::{
    Effects, Input, Key, Keyboard, Pointer, Scene, Shell, Stroke, PENDING_TTL,
};
use corral::board::style::Paint;
use corral::menu::MenuAction;
use corral::model::{Agent, Board, Column, Origin, State, Update};

fn agent(id: &str, state: State) -> Agent {
    Agent {
        socket_path: format!("/s/{id}.sock"),
        pid: 7,
        label: "pi".into(),
        session_id: Some(id.into()),
        title: Some(id.into()),
        cwd: Some("/p".into()),
        state,
        origin: Origin::Live,
        spawn_command: Some(vec!["pi".into()]),
        resume_command: Some(vec!["pi".into(), "--session".into(), "{sessionId}".into()]),
        activity: None,
        gui: false,
        message_flag: None,
        hidden: false,
        model: None,
        state_since: 0,
        last_activity: 0,
    }
}

/// Two agents that need attention, and one that works.
fn board() -> Board {
    let mut b = Board::default();
    b.apply(Update::Upsert(agent("a", State::RequiresAction)), 0);
    b.apply(Update::Upsert(agent("b", State::RequiresAction)), 0);
    b.apply(Update::Upsert(agent("c", State::Running)), 0);
    b
}

fn screen() -> Geometry {
    geometry(Rect { x: 0, y: 0, width: 100, height: 28 })
}

fn key(key: Key) -> Input {
    Input::Key { key, stroke: Stroke::Press, shift: false }
}

fn shifted(key: Key) -> Input {
    Input::Key { key, stroke: Stroke::Press, shift: true }
}

fn mouse(pointer: Pointer, col: u16, row: u16) -> Input {
    Input::Mouse { pointer, col, row }
}

struct Desk {
    shell: Shell,
    board: Board,
    geometry: Geometry,
    now: u128,
}

impl Desk {
    fn new(launcher: bool) -> Desk {
        Desk {
            shell: Shell::new(launcher),
            board: board(),
            geometry: screen(),
            now: 0,
        }
    }
    fn step(&mut self, ev: Input) -> Effects {
        let scene = Scene {
            board: &self.board,
            geometry: &self.geometry,
            scroll: [0; 4],
            home: Some("/home/u"),
            now: self.now,
        };
        self.shell.step(&scene, ev)
    }
    fn deed(&mut self, ev: Input) -> Option<Deed> {
        self.step(ev).task.map(|t| t.deed)
    }
}

#[test]
fn enter_goes_and_q_leaves() {
    let mut d = Desk::new(false);
    assert!(matches!(d.deed(key(Key::Enter)), Some(Deed::Focus(a)) if a.title.as_deref() == Some("a")));
    assert!(d.step(key(Key::Char('q'))).quit);
}

#[test]
fn shift_enter_starts_a_new_agent_beside() {
    let mut d = Desk::new(false);
    match d.deed(shifted(Key::Enter)) {
        Some(Deed::Launch { cwd, command, message, .. }) => {
            assert_eq!(cwd, "/p");
            assert_eq!(command, ["pi"]);
            assert_eq!(message, None);
        }
        _ => panic!("no launch"),
    }
}

#[test]
fn arrows_walk_over_the_board_and_into_the_filter() {
    let mut d = Desk::new(false);
    d.step(key(Key::Down));
    assert_eq!(d.shell.selected(), 1);
    d.step(key(Key::Right));
    assert_eq!(d.shell.selected(), 2);
    d.step(key(Key::Down));
    assert!(d.shell.filtering());
    d.step(key(Key::Char('q')));
    assert_eq!(d.shell.filter(), "q", "letters go into the query");
    d.step(key(Key::Backspace));
    d.step(key(Key::Esc));
    assert!(!d.shell.filtering());
}

#[test]
fn a_message_is_written_and_sent() {
    let mut d = Desk::new(false);
    d.step(key(Key::Char('m')));
    assert!(d.shell.overlay().is_some());
    for c in " hi ".chars() {
        d.step(key(Key::Char(c)));
    }
    match d.deed(key(Key::Enter)) {
        Some(Deed::Prompt { socket, text }) => {
            assert_eq!(socket, "/s/a.sock");
            assert_eq!(text, "hi");
        }
        _ => panic!("not sent"),
    }
    assert!(d.shell.overlay().is_none());
    // A blank one is not sent.
    d.step(key(Key::Char('m')));
    d.step(key(Key::Char(' ')));
    assert!(d.step(key(Key::Enter)).task.is_none());
}

#[test]
fn a_move_pushes_and_pops_the_keyboard() {
    let mut d = Desk::new(false);
    let e = d.step(shifted(Key::Right));
    assert!(matches!(e.keyboard, Keyboard::Push));
    assert_eq!(d.shell.move_mode(), Some((Column::RequiresAction, Column::Idle)));
    assert_eq!(d.shell.move_label(&d.board).as_deref(), Some("a · p"));
    let e = d.step(Input::Key { key: Key::Shift, stroke: Stroke::Release, shift: false });
    assert!(matches!(e.keyboard, Keyboard::Pop));
    let task = e.task.unwrap();
    assert!(matches!(&task.deed, Deed::Cancel { socket } if socket == "/s/a.sock"));
    assert!(!d.shell.finish(task.report, Ok(()), 5));
    assert!(d.shell.status().starts_with("moving a · p → "));
    assert_eq!(d.shell.pending_labels().len(), 1);
    // The agent never confirms: the mark goes after a while.
    d.shell.refresh(&d.board, 6 + PENDING_TTL);
    assert_eq!(d.shell.pending_labels().len(), 0);
}

#[test]
fn a_confirmed_move_is_no_longer_pending() {
    let mut d = Desk::new(false);
    d.step(shifted(Key::Right));
    let e = d.step(key(Key::Enter));
    d.shell.finish(e.task.unwrap().report, Ok(()), 0);
    d.board.apply(Update::SetState("/s/a.sock".into(), State::Idle), 1);
    d.shell.refresh(&d.board, 1);
    assert!(d.shell.pending_labels().is_empty());
}

#[test]
fn escape_calls_a_move_off() {
    let mut d = Desk::new(false);
    d.step(shifted(Key::Right));
    let e = d.step(key(Key::Esc));
    assert!(matches!(e.keyboard, Keyboard::Pop) && e.task.is_none() && !e.quit);
    assert_eq!(d.shell.move_mode(), None);
}

#[test]
fn a_right_click_opens_the_menu_and_escape_closes_it() {
    let mut d = Desk::new(false);
    d.step(mouse(Pointer::RightDown, 5, 9));
    assert_eq!(d.shell.selected(), 1);
    assert_eq!(d.shell.menu().unwrap().highlight, MenuAction::Go);
    d.step(key(Key::Down));
    assert_eq!(d.shell.menu().unwrap().highlight, MenuAction::Message);
    let e = d.step(key(Key::Esc));
    assert!(d.shell.menu().is_none() && !e.quit);
}

#[test]
fn a_double_click_goes() {
    let mut d = Desk::new(false);
    assert!(d.deed(mouse(Pointer::LeftDown, 5, 9)).is_none());
    d.step(mouse(Pointer::LeftUp, 5, 9));
    d.now = 100_000_000;
    assert!(matches!(d.deed(mouse(Pointer::LeftDown, 5, 9)), Some(Deed::Focus(a)) if a.title.as_deref() == Some("b")));
}

#[test]
fn a_drag_to_another_column_moves() {
    let mut d = Desk::new(false);
    d.step(mouse(Pointer::LeftDown, 5, 6));
    let e = d.step(mouse(Pointer::LeftDrag, 30, 6));
    assert!(matches!(e.keyboard, Keyboard::Push));
    assert_eq!(d.shell.move_mode(), Some((Column::RequiresAction, Column::Idle)));
    let e = d.step(mouse(Pointer::LeftUp, 30, 6));
    assert!(matches!(e.keyboard, Keyboard::Pop) && e.task.is_some());
}

#[test]
fn a_launcher_starts_in_the_filter_and_leaves_after_its_deed() {
    let mut d = Desk::new(true);
    assert!(d.shell.filtering());
    let e = d.step(key(Key::Enter));
    assert!(d.shell.finish(e.task.unwrap().report, Ok(()), 0));
    let e = d.step(key(Key::Esc));
    assert!(e.quit);
    // A failed deed stays on the board and says why.
    let e = d.step(key(Key::Enter));
    assert!(!d.shell.finish(e.task.unwrap().report, Err("gone".into()), 0));
    assert_eq!(d.shell.status(), "focus: gone");
}

#[test]
fn with_no_card_nothing_is_done() {
    let mut d = Desk::new(false);
    d.board = Board::default();
    for k in [Key::Enter, Key::Char('d'), Key::Char('h'), Key::Char('m')] {
        assert!(d.step(key(k)).task.is_none());
    }
    d.shell.refresh(&d.board, 0);
    assert_eq!(d.shell.selected(), 0);
    assert!(d.step(Input::Other).task.is_none());
}

#[test]
fn a_selection_past_the_end_is_drawn_back() {
    let mut d = Desk::new(false);
    d.step(key(Key::Down));
    d.step(key(Key::Down));
    assert_eq!(d.shell.selected(), 2);
    d.board.apply(Update::Gone("/s/c.sock".into()), 0);
    d.shell.refresh(&d.board, 0);
    assert_eq!(d.shell.selected(), 1);
}

#[test]
fn what_dismissing_takes() {
    let mut a = agent("a", State::Idle);
    assert!(matches!(dismiss(&a).unwrap().deed, Deed::Close(_)));
    a.hidden = true;
    assert!(matches!(dismiss(&a).unwrap().deed, Deed::Kill(7)));
    a.origin = Origin::Dormant;
    assert!(matches!(dismiss(&a).unwrap().deed, Deed::Forget { session_id, .. } if session_id == "a"));
    a.cwd = None;
    assert!(dismiss(&a).is_none());
}

#[test]
fn what_moving_and_spawning_take() {
    let mut a = agent("a", State::Idle);
    let t = commit_move(Column::Idle, Column::Running, &a).unwrap().unwrap();
    assert!(matches!(&t.deed, Deed::Prompt { text, .. } if text == "continue"));
    assert!(matches!(&t.report.after, After::Pending(_, Column::Running)));
    assert!(commit_move(Column::Idle, Column::Idle, &a).is_none());
    a.origin = Origin::Dormant;
    let t = commit_move(Column::Dormant, Column::Running, &a).unwrap().unwrap();
    assert!(matches!(&t.deed, Deed::Launch { message: Some(m), command, .. }
        if m == "continue" && command[2] == "a"));
    let c = open_compose(&a).unwrap();
    assert!(matches!(send(c, "hi".into()).deed, Deed::Launch { message: Some(m), .. } if m == "hi"));
    a.resume_command = None;
    assert!(commit_move(Column::Dormant, Column::Idle, &a).unwrap().is_err());
    assert!(open_compose(&a).is_none());
    a.spawn_command = None;
    assert!(spawn_beside(&a, None).is_err());
}

fn titles(paints: &[Paint]) -> Vec<String> {
    paints
        .iter()
        .filter_map(|p| match p {
            Paint::Frame { title, .. } => Some(title.clone()),
            _ => None,
        })
        .collect()
}

#[test]
fn the_screen_shows_the_way_in_which_input_is_taken() {
    let none = Vec::new();
    let meta = CardMeta { in_state: &none, quiet: &none, dormant_age: &none, pending: &none };
    let mut d = Desk::new(false);
    let base = draw::render(&d.geometry, &d.board, 0, "", &meta).len();
    // The board with its filter: three things for the filter, and no frame.
    let plain = frame(&d.shell, &d.board, &d.geometry, &meta);
    assert_eq!(plain.len(), base + 3);
    assert!(titles(&plain).is_empty());
    // The composer stands over it.
    d.step(key(Key::Char('m')));
    let composing = frame(&d.shell, &d.board, &d.geometry, &meta);
    assert_eq!(titles(&composing), vec![" message a · p — enter send, esc cancel "]);
    d.step(key(Key::Esc));
    // A move owns the screen: a box for each column, and no filter.
    d.step(shifted(Key::Right));
    let moving = frame(&d.shell, &d.board, &d.geometry, &meta);
    assert_eq!(
        titles(&moving),
        vec![" Requires Action ", " Idle ", " Running ", " Dormant "]
    );
    assert_eq!(moving.len(), base + 4 * 2 + 1 + 1);
}

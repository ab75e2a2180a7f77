//! Where things lie on the screen, and what is drawn of a card.
use corral::board::card::{card, card_age, cwd_pill, focus_label, hidden_badge, tag_pill, title_line, CardMeta};
use corral::board::draw::{self, render, render_compose, render_filter, render_menu, render_move};
use corral::board::footer::{footer_hit_test, footer_layout, FooterAction};
use corral::board::geometry::{
    centered, column_at, filter_hit_test, geometry, hit_in, hit_test, menu_hit_test, menu_rect, Rect,
};
use corral::board::style::{measure, plain, truncate, Paint, Span};
use corral::menu::MenuAction;
use corral::model::{Agent, Board, Column, Origin, State, Update};

fn rect(x: u16, y: u16, width: u16, height: u16) -> Rect {
    Rect { x, y, width, height }
}

fn upsert(board: &mut Board, path: &str, state: State) {
    let mut a = agent(state, None);
    a.socket_path = path.into();
    a.session_id = None;
    a.title = None;
    a.cwd = None;
    board.apply(Update::Upsert(a), 0);
}

#[test]
fn hit_test_maps_clicks_to_selectable_indices() {
    // Two Requires Action (left column), one Running (right column).
    let mut b = Board::default();
    upsert(&mut b, "/s/a.sock", State::RequiresAction);
    upsert(&mut b, "/s/b.sock", State::RequiresAction);
    upsert(&mut b, "/s/c.sock", State::Running);
    let area = rect(0, 0, 100, 28);
    let no_scroll = [0usize; 4];

    // Columns start below FILTER_ROWS=4; then HEAD_ROWS=2 (heading+rule),
    // so the first card's top row is 4 + 2 = 6, and cards are 3 rows tall.
    assert_eq!(hit_test(area, &b, 5, 6, no_scroll), Some(0));
    assert_eq!(hit_test(area, &b, 5, 9, no_scroll), Some(1));
    assert_eq!(hit_test(area, &b, 5, 5, no_scroll), None); // heading/rule row
    assert_eq!(hit_test(area, &b, 5, 12, no_scroll), None); // past the two cards

    // Second column (Idle) is empty.
    assert_eq!(hit_test(area, &b, 30, 6, no_scroll), None);

    // Third live column (Running): index continues after the two left cards.
    assert_eq!(hit_test(area, &b, 60, 6, no_scroll), Some(2));

    // Footer row is outside every column.
    assert_eq!(hit_test(area, &b, 5, 27, no_scroll), None);

    // A scrolled left column maps the first visible row to the offset item.
    assert_eq!(hit_test(area, &b, 5, 6, [1, 0, 0, 0]), Some(1));
}

#[test]
fn menu_rect_clamps_to_stay_on_screen() {
    let area = rect(0, 0, 100, 28);
    // Anchored near the bottom-right, the box shifts left/up to fit.
    let r = menu_rect(area, (98, 26));
    assert!(r.x + r.width <= area.width);
    assert!(r.y + r.height <= area.height);
    assert_eq!(r.height as usize, MenuAction::ALL.len() + 2);
}

#[test]
fn menu_hit_test_maps_rows_to_entries_and_skips_borders() {
    let area = rect(0, 0, 100, 28);
    let r = menu_rect(area, (10, 5));
    // Top border row: no entry.
    assert_eq!(menu_hit_test(r, r.x + 1, r.y), None);
    // First entry row (just below the top border).
    assert_eq!(menu_hit_test(r, r.x + 1, r.y + 1), Some(0));
    assert_eq!(menu_hit_test(r, r.x + 1, r.y + 5), Some(4));
    // Bottom border row: no entry.
    assert_eq!(menu_hit_test(r, r.x + 1, r.y + r.height - 1), None);
    // A column outside the box: no entry.
    assert_eq!(menu_hit_test(r, r.x + r.width + 1, r.y + 1), None);
}

fn agent(state: State, activity: Option<&str>) -> Agent {
    Agent {
        socket_path: "/s/a.sock".into(),
        pid: 1,
        label: "pi".into(),
        session_id: Some("sid".into()),
        title: Some("fix the auth flow".into()),
        cwd: Some("/home/u/projects/corral".into()),
        state,
        origin: Origin::Live,
        spawn_command: None,
        resume_command: None,
        activity: activity.map(String::from),
        gui: false,
        message_flag: None,
        hidden: false,
        model: None,
        state_since: 0,
        last_activity: 0,
    }
}

#[test]
fn hidden_badge_only_for_live_hidden() {
    let mut a = agent(State::Idle, None);
    a.hidden = true;
    assert_eq!(hidden_badge(&a), "hidden");
    a.hidden = false;
    assert_eq!(hidden_badge(&a), "");
    a.hidden = true;
    a.origin = Origin::Dormant;
    assert_eq!(hidden_badge(&a), "", "dormant cards never show the badge");
}

fn pairs(v: &[(&str, &str)]) -> Vec<(String, String)> {
    v.iter().map(|(k, v)| (k.to_string(), v.to_string())).collect()
}

#[test]
fn idle_age_is_time_in_state() {
    let (i, none) = (pairs(&[("/s/a.sock", "5m")]), vec![]);
    let m = CardMeta {
        in_state: &i,
        quiet: &none,
        dormant_age: &none,
        pending: &none,
    };
    let a = agent(State::Idle, Some("edit model.rs"));
    assert_eq!(card_age(&a, Column::Idle, &m).as_deref(), Some("5m"));
}

#[test]
fn age_is_none_when_unknown() {
    let none = vec![];
    let m = CardMeta {
        in_state: &none,
        quiet: &none,
        dormant_age: &none,
        pending: &none,
    };
    let a = agent(State::Idle, None);
    assert_eq!(card_age(&a, Column::Idle, &m), None);
}

fn text(line: &[Span]) -> String {
    line.iter().map(|s| s.text.as_str()).collect()
}

#[test]
fn title_line_puts_age_right_aligned() {
    let line = title_line("fix the auth flow", Some("5m"), 30, plain(), plain());
    let text = text(&line);
    assert_eq!(text.chars().count(), 30, "fills the card width exactly");
    assert!(text.starts_with("fix the auth flow"));
    assert!(text.ends_with("5m"), "age is right-aligned");
    assert_eq!(measure(&line), 30);
}

#[test]
fn cwd_pill_is_the_padded_basename() {
    let pill = cwd_pill(Some("/home/u/projects/corral"), false).unwrap();
    assert_eq!(pill.text, " corral ");
}

#[test]
fn cwd_pill_color_is_stable_per_path() {
    // Same path -> same color; the whole grouping premise.
    let a = cwd_pill(Some("/a/corral"), false).unwrap().style.bg;
    let a2 = cwd_pill(Some("/a/corral"), false).unwrap().style.bg;
    assert_eq!(a, a2);
}

#[test]
fn cwd_pill_is_none_when_cwd_missing() {
    assert!(cwd_pill(None, false).is_none());
    assert_eq!(tag_pill("pi", false).text, " pi ");
}

#[test]
fn a_card_has_three_lines_that_fit() {
    let none = vec![];
    let m = CardMeta {
        in_state: &none,
        quiet: &none,
        dormant_age: &none,
        pending: &none,
    };
    let a = agent(State::Running, Some("edit model.rs"));
    let lines = card(&a, Column::Running, &m, 24);
    assert_eq!(lines.len(), 3);
    for l in &lines {
        assert!(measure(l) <= 24, "{}", text(l));
    }
    assert_eq!(focus_label(&a), "fix the auth flow · corral");
    assert_eq!(truncate("abcdef", 4), "abc…");
    assert_eq!(truncate("abcd", 4), "abcd");
}

#[test]
fn the_parts_of_the_screen_lie_on_it() {
    let area = rect(0, 0, 100, 28);
    let g = geometry(area);
    for r in g.columns.iter().chain(g.heads.iter()).chain(g.rules.iter()).chain(g.cards.iter()) {
        assert!(r.x + r.width <= 100 && r.y + r.height <= 28);
    }
    assert_eq!(g.filter.height, 4);
    assert_eq!(column_at(area, 5), Some(Column::RequiresAction));
    assert_eq!(column_at(area, 95), Some(Column::Dormant));
    assert!(filter_hit_test(&g, g.filter.x + 5, g.filter.y + 1));
    assert!(!filter_hit_test(&g, 5, 20));
    let c = centered(area, 60, 30);
    assert!(c.width <= 100 && c.x + c.width <= 100 && c.width >= 58 && c.width <= 62);
    // A cell that no card covers is no card.
    assert_eq!(hit_in(&g.columns, &[0; 4], &[0; 4], 5, 6), None);
}

#[test]
fn the_parts_lie_as_they_should_on_every_screen() {
    for height in 0..60u16 {
        for width in (0..240u16).step_by(7).chain([8, 9, 10, 11, 100]) {
            for (x, y) in [(0, 0), (3, 5)] {
                let g = geometry(rect(x, y, width, height));
                if width >= 9 {
                    assert_eq!(g.columns[0].x, x);
                    for i in 1..4 {
                        assert_eq!(g.columns[i].x, g.columns[i - 1].x + g.columns[i - 1].width + 3);
                    }
                    assert!(g.columns[3].x + g.columns[3].width <= x + width);
                }
                if height < 6 {
                    assert!(g.columns.iter().all(|c| c.height == 0), "{width} {height}");
                }
                if height < 8 {
                    assert!(g.cards.iter().all(|c| c.height == 0), "{width} {height}");
                }
                if height >= 2 {
                    assert_eq!(g.footer.y, y + height - 1);
                }
                if height >= 6 {
                    assert_eq!(g.filter, rect(x, y, width, 4));
                    assert_eq!((g.footer.y, g.footer.height), (y + height - 1, 1));
                    for c in g.columns {
                        assert_eq!((c.y, c.height), (y + 4, height - 6));
                    }
                }
                if height >= 8 {
                    for i in 0..4 {
                        assert_eq!((g.heads[i].y, g.heads[i].height), (y + 4, 1));
                        assert_eq!((g.rules[i].y, g.rules[i].height), (y + 5, 1));
                        assert_eq!((g.cards[i].y, g.cards[i].height), (y + 6, height - 8));
                    }
                }
            }
        }
    }
}

#[test]
fn the_columns_are_equal_on_every_width() {
    for width in (0..240u16).chain([999, 4096, 65000]) {
        for x in [0, 7] {
            let g = geometry(rect(x, 0, width, 20));
            if width < 9 {
                assert!(g.columns.iter().all(|c| c.width == 0), "{width}");
                continue;
            }
            let quarter = |i: u32| (((width - 9) as u32 * i + 2) / 4) as u16;
            for i in 0..4u32 {
                let c = g.columns[i as usize];
                assert_eq!(c.x, x + 3 * i as u16 + quarter(i), "{width} {i}");
                assert_eq!(c.width, quarter(i + 1) - quarter(i), "{width} {i}");
            }
        }
    }
    let starts: Vec<u16> = geometry(rect(0, 0, 100, 28)).columns.iter().map(|c| c.x).collect();
    assert_eq!(starts, vec![0, 26, 52, 77]);
    // No cell of a screen that is too small hits anything.
    let mut b = Board::default();
    upsert(&mut b, "/s/a.sock", State::RequiresAction);
    for (width, height) in [(8, 28), (100, 5), (0, 0)] {
        for col in 0..10 {
            assert_eq!(hit_test(rect(0, 0, width, height), &b, col, 6, [0; 4]), None);
        }
    }
    assert_eq!(column_at(rect(0, 0, 8, 28), 3), None);
    assert_eq!(column_at(rect(0, 0, 100, 28), 51), None);
    assert_eq!(column_at(rect(0, 0, 100, 28), 52), Some(Column::Running));
}

#[test]
fn a_popup_stands_in_the_middle() {
    let share = |room: u16, percent: u16| (room as u32 * percent as u32 + 50) / 100;
    for size in (0..150u16).step_by(7) {
        for percent in 0..=100u16 {
            let side = (100 - percent) / 2;
            let r = centered(rect(2, 3, size, size), percent, 20);
            assert_eq!(r.x as u32, 2 + share(size, side), "{size} {percent}");
            assert_eq!(r.width as u32, share(size, side + percent) - share(size, side), "{size} {percent}");
            assert_eq!(r.y as u32, 3 + share(size, 40));
            assert_eq!(r.height as u32, share(size, 60) - share(size, 40));
        }
    }
}

#[test]
fn every_cell_of_a_card_hits_it() {
    let g = geometry(rect(0, 0, 97, 31));
    let counts = [9usize, 0, 4, 7];
    let scroll = [2usize, 0, 0, 1];
    for c in [0usize, 2, 3] {
        let before: usize = counts[..c].iter().sum();
        for item in scroll[c]..counts[c] {
            let top = g.cards[c].y + 3 * (item - scroll[c]) as u16;
            for row in top..(top + 3).min(g.cards[c].y + g.cards[c].height) {
                for col in [g.cards[c].x, g.cards[c].x + g.cards[c].width - 1] {
                    assert_eq!(hit_in(&g.columns, &counts, &scroll, col, row), Some(before + item));
                }
            }
        }
    }
}

#[test]
fn key_hints_are_hit_where_they_are_drawn() {
    let g = geometry(rect(0, 0, 100, 28));
    let (spans, slots) = footer_layout();
    assert!(measure(&spans) > 0);
    for (action, at, width) in slots {
        if width > 0 {
            assert_eq!(footer_hit_test(&g, g.footer.x + at, g.footer.y), Some(action));
        }
    }
    assert_eq!(footer_hit_test(&g, g.footer.x, g.footer.y + 1), None);
    assert_eq!(footer_layout().1[0].0, FooterAction::Go);
}

#[test]
fn only_the_selected_card_is_marked() {
    let mut b = Board::default();
    upsert(&mut b, "/s/a.sock", State::RequiresAction);
    upsert(&mut b, "/s/c.sock", State::Running);
    let g = geometry(rect(0, 0, 100, 28));
    let none = vec![];
    let m = CardMeta {
        in_state: &none,
        quiet: &none,
        dormant_age: &none,
        pending: &none,
    };
    let marks: Vec<(usize, usize, Option<usize>)> = render(&g, &b, 1, "said", &m)
        .into_iter()
        .filter_map(|p| match p {
            Paint::Cards { column, cards, selected, .. } => Some((column, cards.len(), selected)),
            _ => None,
        })
        .collect();
    assert!(marks.contains(&(2, 1, Some(0))));
    assert_eq!(marks.iter().filter(|m| m.2.is_some()).count(), 1);
    let idle = b.column(Column::Idle);
    assert!(!draw::column(&g, 1, &idle, None, &m).is_empty());
}

fn written(paints: &[Paint]) -> String {
    let mut out = String::new();
    for p in paints {
        match p {
            Paint::Text { lines, .. } => {
                for l in lines {
                    out += &text(l);
                    out.push('\n');
                }
            }
            Paint::Frame { title, .. } => {
                out += title;
                out.push('\n');
            }
            _ => {}
        }
    }
    out
}

#[test]
fn popups_show_what_they_hold() {
    let area = rect(0, 0, 100, 28);
    let g = geometry(area);
    assert!(written(&render_filter(&g, "needle", true)).contains("needle"));
    let compose = written(&render_compose(area, "the agent", "hello"));
    assert!(compose.contains("the agent") && compose.contains("hello"));
    let menu = written(&render_menu(area, (10, 5), 2));
    for a in MenuAction::ALL {
        assert!(menu.contains(a.label()));
    }
    let moving = written(&render_move(&g, Column::Running, Column::Idle, "my card"));
    assert!(moving.contains("my card"));
}

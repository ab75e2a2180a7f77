//! The launcher's list.
use corral::model::{Agent, Origin, State};
use corral::picker::{fuzzy, Filter, Picker, Row};

fn agent(title: &str, cwd: &str, origin: Origin) -> Agent {
    Agent {
        socket_path: format!("/s/{title}.sock"),
        pid: 1,
        label: "pi".into(),
        session_id: Some(title.into()),
        title: Some(title.into()),
        cwd: Some(cwd.into()),
        state: State::Idle,
        origin,
        spawn_command: None,
        resume_command: None,
        activity: None,
        gui: false,
        message_flag: None,
        hidden: false,
        model: None,
        state_since: 0,
        last_activity: 0,
    }
}

fn sample() -> Picker {
    Picker::new(vec![
        agent("alpha", "/home/u/projects/corral", Origin::Live),
        agent("beta", "/home/u/projects/nixos", Origin::Live),
        agent("gamma", "/home/u/projects/corral", Origin::Dormant),
    ])
}

#[test]
fn groups_by_directory_in_first_appearance_order() {
    let p = sample();
    let rows = p.rows();
    // corral (alpha, gamma) appears before nixos (beta); headers are full paths.
    assert!(matches!(rows[0], Row::Header("/home/u/projects/corral")));
    assert!(matches!(rows[1], Row::Agent(a) if a.title.as_deref() == Some("alpha")));
    assert!(matches!(rows[2], Row::Agent(a) if a.title.as_deref() == Some("gamma")));
    assert!(matches!(rows[3], Row::Header("/home/u/projects/nixos")));
    assert!(matches!(rows[4], Row::Agent(a) if a.title.as_deref() == Some("beta")));
}

#[test]
fn query_matches_title_or_path_and_drops_empty_groups() {
    let mut p = sample();
    p.push('b');
    p.push('e');
    p.push('t'); // "bet" matches title beta only
    let rows = p.rows();
    assert_eq!(rows.len(), 2); // nixos header + beta
    assert!(matches!(rows[0], Row::Header("/home/u/projects/nixos")));
}

#[test]
fn dir_query_keeps_all_agents_in_group() {
    let mut p = sample();
    for c in "corral".chars() {
        p.push(c);
    }
    let rows = p.rows();
    // both corral agents survive; nixos group is gone.
    assert!(matches!(rows[0], Row::Header("/home/u/projects/corral")));
    assert_eq!(rows.len(), 3);
}

#[test]
fn tab_filter_restricts_origin() {
    let mut p = sample();
    p.cycle_filter(); // All -> Live
    assert_eq!(p.filter, Filter::Live);
    let live: Vec<_> = p
        .rows()
        .into_iter()
        .filter_map(|r| match r {
            Row::Agent(a) => a.title.clone(),
            Row::Header(_) => None,
        })
        .collect();
    assert_eq!(live, vec!["alpha", "beta"]);
    p.cycle_filter(); // Live -> Dormant
    let dormant: Vec<_> = p
        .rows()
        .into_iter()
        .filter_map(|r| match r {
            Row::Agent(a) => a.title.clone(),
            Row::Header(_) => None,
        })
        .collect();
    assert_eq!(dormant, vec!["gamma"]);
}

#[test]
fn down_skips_headers_and_selected_agent_maps_back() {
    let mut p = sample();
    assert_eq!(p.selected_agent().unwrap().title.as_deref(), Some("alpha"));
    p.down();
    assert_eq!(p.selected_agent().unwrap().title.as_deref(), Some("gamma"));
    p.down();
    assert_eq!(p.selected_agent().unwrap().title.as_deref(), Some("beta"));
    p.down(); // clamps at end
    assert_eq!(p.selected_agent().unwrap().title.as_deref(), Some("beta"));
}

#[test]
fn lower_and_upper_case_are_one() {
    assert!(fuzzy("", ""));
    assert!(fuzzy("ÄB", "xäyb"));
    assert!(!fuzzy("ba", "ab"));
}

#[test]
fn the_filter_goes_round() {
    assert_eq!(Filter::All.next(), Filter::Live);
    assert_eq!(Filter::Live.next(), Filter::Dormant);
    assert_eq!(Filter::Dormant.next(), Filter::All);
    assert_eq!([Filter::All.label(), Filter::Live.label(), Filter::Dormant.label()], ["all", "live", "dormant"]);
    assert!(Filter::Live.accepts(Origin::Live) && !Filter::Live.accepts(Origin::Dormant));
    let mut p = sample();
    p.push('z');
    assert!(p.rows().is_empty() && p.selected_agent().is_none());
    p.backspace();
    p.down();
    p.up();
    assert_eq!(p.selected_agent().unwrap().title.as_deref(), Some("alpha"));
    assert_eq!(p.filter_label(), "all");
}

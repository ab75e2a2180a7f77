//! Finding an agent's window.
use corral::focus::{
    ancestor_pids, client_window, detect, find_window, focus_command, focus_report, ppid_of, window, Display,
};
use corral::json::parse;

#[test]
fn finds_window_by_pid_in_tree() {
    let tree = parse(
        r#"{
            "id": 1, "nodes": [
                {"id": 5, "pid": 4834, "name": "keepass"},
                {"id": 46, "nodes": [{"id": 66, "pid": 84669, "name": "pi"}]}
            ]
        }"#,
    )
    .unwrap();
    assert_eq!(find_window(&tree, &vec![84669]), Some((66, 84669)));
}

#[test]
fn finds_con_id_by_pid_in_tree() {
    let tree = parse(
        r#"{
            "id": 1, "nodes": [
                {"id": 5, "pid": 4834, "name": "keepass"},
                {"id": 46, "nodes": [{"id": 66, "pid": 84669, "name": "pi"}]}
            ]
        }"#,
    )
    .unwrap();
    assert_eq!(find_window(&tree, &vec![84669]).map(|w| w.0), Some(66));
}

#[test]
fn focus_no_match_yields_none() {
    let tree = parse(r#"{"id": 1, "nodes": [{"id": 5, "pid": 1}]}"#).unwrap();
    assert_eq!(find_window(&tree, &vec![9999]), None);
}

#[test]
fn no_match_yields_none() {
    let tree = parse(r#"{"id": 1, "nodes": [{"id": 5, "pid": 1}]}"#).unwrap();
    assert_eq!(find_window(&tree, &vec![9999]).map(|w| w.0), None);
}

#[test]
fn floating_windows_are_found_too() {
    let tree = r#"{"id":1,"nodes":[],"floating_nodes":[{"id":7,"pid":3}]}"#;
    assert_eq!(window(tree, &vec![2, 3], 2), Ok((7, 3)));
    assert!(window(tree, &vec![2], 2).is_err());
    assert!(window("not json", &vec![3], 3).is_err());
    assert_eq!(focus_command(7), "[con_id=7] focus");
}

#[test]
fn the_chain_of_parents_ends_at_the_root() {
    assert_eq!(ppid_of("42 (a b) c) S 7 42 42"), Some(7));
    assert_eq!(ppid_of("nothing"), None);
    let parent = |p: u32| match p {
        9 => Some(5),
        5 => Some(1),
        1 => Some(0),
        _ => None,
    };
    let pids = ancestor_pids(9, &parent);
    assert!(pids.contains(&9) && pids.contains(&5));
    let looped = |p: u32| Some(if p == 3 { 4 } else { 3 });
    assert!(ancestor_pids(3, &looped).len() >= 2);
}

#[test]
fn wayland_comes_first() {
    assert_eq!(detect(true, true), Display::Sway);
    assert_eq!(detect(false, true), Display::X11);
}

#[test]
fn the_first_window_of_the_agent_or_a_parent_is_its_own() {
    let pid_of = |w: u32| match w {
        10 => None,
        11 => Some(7),
        12 => Some(300),
        13 => Some(200),
        _ => Some(1),
    };
    let windows = vec![10, 11, 12, 13];
    assert_eq!(client_window(&windows, &vec![200, 300], 200, &pid_of), Ok(12));
    assert_eq!(client_window(&windows, &vec![200], 200, &pid_of), Ok(13));
    assert_eq!(
        client_window(&windows, &vec![5], 5, &pid_of),
        Err("no x11 window found for pid 5".into())
    );
    assert_eq!(focus_report(&Ok(true)), Ok(()));
    assert_eq!(focus_report(&Ok(false)), Err("swaymsg focus returned non-zero".into()));
    assert_eq!(focus_report(&Err("no".into())), Err("swaymsg failed: no".into()));
}

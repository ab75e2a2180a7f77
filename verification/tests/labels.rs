//! A list of labels narrowed by a query.
use corral::board::labels::Picker;
use corral::picker::fuzzy;

#[test]
fn fuzzy_is_case_insensitive_subsequence() {
    assert!(fuzzy("", "/home/x/anything"));
    assert!(fuzzy("cor", "/home/u/projects/corral"));
    assert!(fuzzy("crl", "/home/u/projects/corral")); // subsequence, gaps ok
    assert!(!fuzzy("xyz", "/home/u/projects/corral"));
    assert!(!fuzzy("corx", "/home/u/projects/corral"));
}

#[test]
fn matches_filter_and_selection() {
    let mut p = Picker::new(vec![
        "/home/u/projects/corral".into(),
        "/home/u/projects/nixos".into(),
        "/tmp".into(),
    ]);
    assert_eq!(p.matches().len(), 3);
    p.push('n');
    // "n" appears in corral (corral has an 'n'? no) -> check: nixos yes,
    // /home has no... "/home/u/projects/nixos" contains n; corral contains
    // no 'n'; /tmp no. Expect nixos only among these.
    assert_eq!(p.matches(), vec!["/home/u/projects/nixos"]);
    assert_eq!(p.matches(), vec!["/home/u/projects/nixos"]);
    // The match maps back to its original index (nixos is candidate 1).
    assert_eq!(p.selected_original(), Some(1));
    p.backspace();
    assert_eq!(p.matches().len(), 3);
    assert_eq!(p.selected_original(), Some(0));
}

#[test]
fn the_selection_stays_among_the_matches() {
    let mut p = Picker::new(vec!["aa".into(), "ab".into(), "aa".into()]);
    p.push('a');
    p.push('a');
    assert_eq!(p.matches(), ["aa", "aa"]);
    p.down();
    p.down();
    assert_eq!(p.selected, 1);
    assert_eq!(p.selected_original(), Some(2));
    p.up();
    p.up();
    assert_eq!(p.selected_original(), Some(0));
    p.push('z');
    p.down();
    assert_eq!(p.selected_original(), None);
}

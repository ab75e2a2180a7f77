//! Colours by directory.
use corral::palette::{basename, color_index, fnv1a};

#[test]
fn same_path_same_bucket() {
    assert_eq!(
        color_index("/home/u/proj", 8),
        color_index("/home/u/proj", 8)
    );
}

#[test]
fn different_leaves_under_different_roots_differ() {
    // The whole point: same basename, different root → keyed on full path.
    // Not guaranteed distinct for every pair (limited palette), but these
    // two must land apart for the grouping aid to mean anything here.
    let a = color_index("/a/proj", 8);
    let b = color_index("/b/proj", 8);
    assert_ne!(a, b);
}

#[test]
fn index_stays_in_range() {
    for p in ["/", "/x", "/home/user/projects/corral", "no-slash"] {
        assert!(color_index(p, 8) < 8);
    }
}

#[test]
fn zero_palette_is_zero() {
    assert_eq!(color_index("/anything", 0), 0);
}

#[test]
fn basename_strips_trailing_slash() {
    assert_eq!(basename("/home/u/projects/corral"), "corral");
    assert_eq!(basename("/home/u/projects/corral/"), "corral");
}

#[test]
fn basename_of_root_is_not_empty() {
    assert_eq!(basename("/"), "/");
    assert_eq!(basename("//"), "//");
}

#[test]
fn the_hash_is_fnv1a() {
    assert_eq!(fnv1a(""), 0xcbf29ce484222325);
    assert_eq!(fnv1a("a"), 0xaf63dc4c8601ec8c);
    assert_eq!(fnv1a("foobar"), 0x85944171f73967e8);
}

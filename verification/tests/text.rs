//! Characters, texts and paths.
use corral::path::{file_name, is_path_before, is_same_path, join_path, parent, path_components, split_extension};
use corral::text::{
    is_ascii_alphanumeric, is_control, is_letter_or_digit, is_subsequence, is_whitespace, join,
    lower_each, pad_left, pad_right, parse_u32, split_lines, split_once, split_whitespace, strip_suffix,
    take_chars, to_decimal, to_hex, to_signed, trim,
};

#[test]
fn characters_are_told_apart_as_std_does() {
    for c in ['a', 'Z', '0', 'é', 'ß', '日', '٣', '_', ' ', '-', '\u{a0}', '\u{2028}', '\u{85}', '\u{7f}', '\u{1}'] {
        assert_eq!(is_whitespace(c), c.is_whitespace(), "{c:?}");
        assert_eq!(is_control(c), c.is_control(), "{c:?}");
        assert_eq!(is_letter_or_digit(c), c.is_alphanumeric(), "{c:?}");
        assert_eq!(is_ascii_alphanumeric(c), c.is_ascii_alphanumeric(), "{c:?}");
    }
}

#[test]
fn lower_case_goes_char_by_char() {
    assert_eq!(lower_each("ÀBC İ"), "ÀBC İ".chars().flat_map(|c| c.to_lowercase()).collect::<String>());
    assert!(is_subsequence("ac", "abc") && !is_subsequence("ca", "abc"));
}

#[test]
fn texts_are_cut_as_std_cuts_them() {
    for s in ["", "a", " a b ", "a\nb\r\nc\n", "\n\n", "\u{2003}x\u{2003}"] {
        assert_eq!(trim(s), s.trim());
        assert_eq!(split_whitespace(s), s.split_whitespace().collect::<Vec<_>>());
        assert_eq!(split_lines(s), s.lines().collect::<Vec<_>>());
    }
    assert_eq!(split_once("a -> b -> c", " -> "), Some(("a".into(), "b -> c".into())));
    assert_eq!(strip_suffix("abc", "bc").as_deref(), Some("a"));
    assert_eq!(strip_suffix("abc", "bd"), None);
    assert_eq!(take_chars("héllo", 2), "hé");
    assert_eq!(join(&vec!["a".into(), "b".into()], ", "), "a, b");
    assert_eq!((pad_right("a", 3), pad_left("a", 3)), ("a  ".into(), "  a".into()));
}

#[test]
fn numbers_are_written_and_read() {
    assert_eq!(to_decimal(u64::MAX), u64::MAX.to_string());
    assert_eq!(to_signed(i64::MIN), i64::MIN.to_string());
    assert_eq!(to_hex(0xab, 16), "00000000000000ab");
    for s in ["0", "007", "+7", "4294967295", "4294967296", "", "-1", "1x"] {
        assert_eq!(parse_u32(s), s.parse::<u32>().ok(), "{s}");
    }
}

#[test]
fn paths_are_taken_apart_as_std_does() {
    for p in ["/", "//", "/a", "/a/", "a/b/", "/a/..", "..", ".", "/a/./b", "", "a"] {
        let std = std::path::Path::new(p);
        assert_eq!(file_name(p), std.file_name().map(|s| s.to_string_lossy().into_owned()), "{p}");
        assert_eq!(parent(p), std.parent().map(|s| s.to_string_lossy().into_owned()), "{p}");
        for q in ["/", "/a", "a", "/a/b", "a/b", ""] {
            let other = std::path::Path::new(q);
            assert_eq!(is_same_path(p, q), std == other, "{p} {q}");
            assert_eq!(is_path_before(p, q), std < other, "{p} {q}");
            assert_eq!(join_path(p, q), std.join(q).to_string_lossy(), "{p} {q}");
        }
        assert_eq!(path_components(p).len(), std.components().count(), "{p}");
    }
    for n in ["a.json", ".json", "a", "a.b.json", "a."] {
        let std = std::path::Path::new(n);
        let (stem, ext) = split_extension(n);
        assert_eq!(Some(stem.as_str()), std.file_stem().and_then(|s| s.to_str()));
        assert_eq!(ext.as_deref(), std.extension().and_then(|s| s.to_str()));
    }
}

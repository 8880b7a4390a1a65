use rootftp::text::{chars_of, ends_with, eq_ignore_ascii_case, str_eq, strip_prefix, trim};

#[test]
fn trim_removes_unicode_white_space() {
    assert_eq!(trim("  42\n"), "42");
    assert_eq!(trim("\u{3000}\u{a0}x y\u{2029}\t"), "x y");
    assert_eq!(trim(" \n\t "), "");
    assert_eq!(trim(""), "");
    for s in ["  a b ", "\u{85}z\u{205f}", "\r\n", "q"] {
        assert_eq!(trim(s), s.trim());
    }
}

#[test]
fn comparisons() {
    assert!(eq_ignore_ascii_case("AnOnYmOuS", "anonymous"));
    assert!(!eq_ignore_ascii_case("anonymou", "anonymous"));
    for (a, b) in [("Änonymous", "änonymous"), ("ABC", "abc"), ("a[", "A{"), ("", ""), ("x", "")] {
        assert_eq!(eq_ignore_ascii_case(a, b), a.eq_ignore_ascii_case(b), "{:?} {:?}", a, b);
    }
    assert!(str_eq("bob", "bob"));
    assert!(!str_eq("bob", "Bob"));
    assert_eq!(strip_prefix("share.bob", "share."), Some("bob".to_string()));
    assert_eq!(strip_prefix("share", "share."), None);
    assert!(ends_with("lib.so", ".so"));
    assert!(!ends_with("so", ".so"));
    assert_eq!(chars_of("héllo"), vec!['h', 'é', 'l', 'l', 'o']);
}

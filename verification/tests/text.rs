use lumina::text::{
    chars_equal, chars_of, parse_usize_chars, push_decimal, same_text, starts_with_chars,
    string_of, trim_chars,
};

fn trimmed(s: &str) -> String {
    let v = chars_of(s);
    string_of(trim_chars(v.as_slice()).as_slice())
}

fn parsed(s: &str) -> Option<usize> {
    let v = chars_of(s);
    parse_usize_chars(v.as_slice())
}

#[test]
fn trim_removes_unicode_white_space() {
    assert_eq!(trimmed("  continue \t\n"), "continue");
    assert_eq!(trimmed("\u{3000}quit\u{a0}"), "quit");
    assert_eq!(trimmed("\u{2003}jump a b\u{85}"), "jump a b");
    assert_eq!(trimmed("   "), "");
    assert_eq!(trimmed(""), "");
    assert_eq!(trimmed("x"), "x");
}

#[test]
fn trim_matches_std() {
    for s in ["  a b  ", "\u{200b}a", "a\u{1680}", "\u{feff}x", " \u{2029} y \u{202f}"] {
        assert_eq!(trimmed(s), s.trim());
    }
}

#[test]
fn parse_usize_like_std() {
    assert_eq!(parsed("0"), Some(0));
    assert_eq!(parsed("42"), Some(42));
    assert_eq!(parsed("+7"), Some(7));
    assert_eq!(parsed("+"), None);
    assert_eq!(parsed(""), None);
    assert_eq!(parsed("-1"), None);
    assert_eq!(parsed("12a"), None);
    assert_eq!(parsed(" 1"), None);
    assert_eq!(parsed("007"), Some(7));
    assert_eq!(parsed(&usize::MAX.to_string()), Some(usize::MAX));
    let over = format!("{}0", usize::MAX);
    assert_eq!(parsed(&over), None);
    for s in ["0", "99", "+3", "+", "", "-0", "1_000", "٣"] {
        assert_eq!(parsed(s), s.parse::<usize>().ok());
    }
}

#[test]
fn decimal_text() {
    let mut v = chars_of("n=");
    push_decimal(&mut v, 1050);
    assert_eq!(string_of(v.as_slice()), "n=1050");
}

#[test]
fn prefix_and_equality() {
    let s = chars_of("show menu");
    assert!(starts_with_chars(s.as_slice(), chars_of("show ").as_slice()));
    assert!(!starts_with_chars(s.as_slice(), chars_of("jump ").as_slice()));
    assert!(!starts_with_chars(chars_of("sh").as_slice(), chars_of("show ").as_slice()));
    assert!(chars_equal(chars_of("a").as_slice(), chars_of("a").as_slice()));
    assert!(!chars_equal(chars_of("a").as_slice(), chars_of("ab").as_slice()));
    assert!(same_text("界", "界"));
    assert!(!same_text("界", "世"));
}

use remores_dl::canvas::User;
use remores_dl::strutil::{str_ends_with, trim_str};

#[test]
fn trim_removes_ascii_whitespace() {
    assert_eq!(trim_str("  24-03-15\t\n"), "24-03-15");
    assert_eq!(trim_str(""), "");
    assert_eq!(trim_str(" \t "), "");
    assert_eq!(trim_str("a b"), "a b");
}

#[test]
fn trim_removes_unicode_whitespace_like_str_trim() {
    // a no-break space, as the legacy markup's &nbsp; becomes
    assert_eq!(trim_str("\u{a0}24-03-15\u{a0}"), "24-03-15");
    assert_eq!(trim_str("\u{2009}x\u{3000}"), "x");
    let s = "\u{a0}\u{85} mixed \u{202f}";
    assert_eq!(trim_str(s), s.trim());
}

#[test]
fn ends_with_matches_std() {
    assert!(str_ends_with("lab1-asalamon", "asalamon"));
    assert!(!str_ends_with("lab1-asalamonx", "asalamon"));
    assert!(str_ends_with("abc", ""));
    assert!(!str_ends_with("", "a"));
}

#[test]
fn user_label_formats_name_and_email() {
    let u = User { name: "Anna Svensson".to_string(), email: "anna@kth.se".to_string() };
    assert_eq!(u.label(), "Anna Svensson (anna@kth.se)");
}

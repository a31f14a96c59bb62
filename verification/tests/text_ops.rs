use coolercontrol_truenas_bridge::text::{
    concatenate, contains_char, contains_str, eq_ignore_ascii_case, starts_with, str_eq, str_lt, strip_prefix, trim,
    trim_end_char,
};

#[test]
fn trims_unicode_white_space() {
    assert_eq!(trim("\u{a0}\u{2003} a b \t\n"), "a b");
    assert_eq!(trim("   "), "");
    assert_eq!(trim("x"), "x");
    assert_eq!(trim_end_char("/a//", '/'), "/a");
    assert_eq!(trim_end_char("///", '/'), "");
}

#[test]
fn compares_and_searches() {
    assert!(str_eq("abc", "abc"));
    assert!(!str_eq("abc", "abd"));
    assert!(starts_with("wss://x", "wss://"));
    assert!(!starts_with("ws", "wss://"));
    assert_eq!(strip_prefix("https://nas", "https://"), Some("nas".to_string()));
    assert_eq!(strip_prefix("http://nas", "https://"), None);
    assert!(contains_char("a/b", '/'));
    assert!(!contains_char("ab", '/'));
    assert!(contains_str("xx options yy", "options"));
    assert!(contains_str("abc", ""));
    assert!(!contains_str("opt", "options"));
    assert!(eq_ignore_ascii_case("AUTO", "auto"));
    assert!(!eq_ignore_ascii_case("autö", "AUTÖ"));
    assert_eq!(concatenate("ws", "://"), "ws://");
    assert!(str_lt("B", "a"));
    assert!(str_lt("a", "ab"));
    assert!(!str_lt("b", "ab"));
    assert!(str_lt("z", "é"));
}

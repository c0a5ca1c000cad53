use xmltodict_rs::text::{
    all_whitespace, chars_of, contains, followed_by, holds_text, join, split_once, starts_with,
    str_eq,
    string_of, strip_prefix, trim,
};

#[test]
fn trim_removes_white_space_at_both_ends() {
    assert_eq!(trim("  a b \n"), "a b");
    assert_eq!(trim("\u{a0}x\u{2003}"), "x");
    assert_eq!(trim("x"), "x");
    assert_eq!(trim(" \t\n"), "");
    assert_eq!(trim(""), "");
}

#[test]
fn all_whitespace_tells_blank_text() {
    assert!(all_whitespace(""));
    assert!(all_whitespace(" \n\t\r"));
    assert!(!all_whitespace(" a "));
    assert!(!all_whitespace("\u{8d8a}"));
}

#[test]
fn join_puts_the_separator_between_neighbours() {
    let parts = vec!["a".to_string(), "b".to_string(), "c".to_string()];
    assert_eq!(join(&parts, ", "), "a, b, c");
    assert_eq!(join(&parts, ""), "abc");
    assert_eq!(join(&vec!["only".to_string()], "-"), "only");
    assert_eq!(join(&Vec::new(), "-"), "");
}

#[test]
fn split_once_splits_at_the_first_delimiter() {
    assert_eq!(split_once("ns:b", ':'), Some(("ns".to_string(), "b".to_string())));
    assert_eq!(split_once("a:b:c", ':'), Some(("a".to_string(), "b:c".to_string())));
    assert_eq!(split_once(":b", ':'), Some(("".to_string(), "b".to_string())));
    assert_eq!(split_once("a:", ':'), Some(("a".to_string(), "".to_string())));
    assert_eq!(split_once("plain", ':'), None);
}

#[test]
fn contains_finds_a_run_of_characters() {
    assert!(contains("a:b", ":"));
    assert!(contains("a::b", "::"));
    assert!(!contains("a:b", "::"));
    assert!(contains("abc", ""));
    assert!(contains("", ""));
    assert!(!contains("", "a"));
    assert!(contains("x\u{e9}y", "\u{e9}y"));
}

#[test]
fn strip_prefix_hands_back_what_follows() {
    assert_eq!(strip_prefix("@id", "@"), Some("id".to_string()));
    assert_eq!(strip_prefix("@", "@"), Some("".to_string()));
    assert_eq!(strip_prefix("id", "@"), None);
    assert_eq!(strip_prefix("id", ""), Some("id".to_string()));
    assert!(starts_with("#text", "#"));
    assert!(!starts_with("text", "#"));
}

#[test]
fn strings_compare_by_their_characters() {
    assert!(str_eq("abc", "abc"));
    assert!(!str_eq("abc", "abd"));
    assert!(!str_eq("abc", "ab"));
    assert!(str_eq("", ""));
    assert!(holds_text(&vec!["a".to_string(), "b".to_string()], "b"));
    assert!(!holds_text(&vec!["a".to_string(), "b".to_string()], "c"));
}

#[test]
fn characters_and_strings_convert_both_ways() {
    let v = chars_of("h\u{e9}llo");
    assert_eq!(v, vec!['h', '\u{e9}', 'l', 'l', 'o']);
    assert_eq!(string_of(&v, 1, 3), "\u{e9}l");
    assert_eq!(string_of(&v, 2, 2), "");
    assert_eq!(followed_by("ab", "cd"), "abcd");
}

use ssh_quick_connect::text::{
    char_is_white_space, decimal_string, is_blank_str, join_strings, lowercase_of, str_contains,
    str_eq_ignore_ascii_case, trim_str,
};

#[test]
fn white_space_matches_std() {
    for c in ['\t', '\n', '\u{0B}', '\u{0C}', '\r', ' ', '\u{85}', '\u{A0}', '\u{1680}', '\u{2000}',
        '\u{200A}', '\u{2028}', '\u{2029}', '\u{202F}', '\u{205F}', '\u{3000}', 'a', '\u{200B}',
        '\u{180E}', '\u{FEFF}', '0', '\u{1F600}']
    {
        assert_eq!(char_is_white_space(c), c.is_whitespace(), "{:?}", c);
    }
    for u in 0u32..=0x10FFFF {
        if let Some(c) = char::from_u32(u) {
            assert_eq!(char_is_white_space(c), c.is_whitespace(), "{:?}", c);
        }
    }
}

#[test]
fn trimming_matches_std() {
    for s in ["", "   ", "  a b  ", "\u{3000}x\u{A0}", "abc", "\t\n", " ä "] {
        assert_eq!(trim_str(s), s.trim());
        assert_eq!(is_blank_str(s), s.trim().is_empty());
    }
}

#[test]
fn case_insensitive_equality_folds_ascii_only() {
    assert!(str_eq_ignore_ascii_case("Prod-DB", "prod-db"));
    assert!(!str_eq_ignore_ascii_case("Ä", "ä"));
    assert!(!str_eq_ignore_ascii_case("ab", "abc"));
    assert!(str_eq_ignore_ascii_case("", ""));
}

#[test]
fn substring_search() {
    assert!(str_contains("db.example.com", "example"));
    assert!(str_contains("abc", ""));
    assert!(str_contains("abc", "abc"));
    assert!(!str_contains("ab", "abc"));
    assert!(!str_contains("aab", "ba"));
    assert!(str_contains("über", "be"));
}

#[test]
fn lowercase_and_digits_and_join() {
    assert_eq!(lowercase_of("ÄrGER"), "ärger");
    assert_eq!(decimal_string(0), "0");
    assert_eq!(decimal_string(1234567890), "1234567890");
    assert_eq!(decimal_string(u64::MAX), u64::MAX.to_string());
    let parts = vec!["a".to_string(), "b".to_string(), "c".to_string()];
    assert_eq!(join_strings(&parts, ", "), "a, b, c");
    assert_eq!(join_strings(&vec![], ", "), "");
}

#[test]
fn lowercase_folds_ascii_letters_only() {
    assert_eq!(lowercase_of("Hello, WORLD 42!"), "hello, world 42!");
    assert_eq!(lowercase_of(""), "");
}

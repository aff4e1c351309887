use disbatch::text::{
    blank, contains, copy_strings, find_chars, is_whitespace, lines, matches_at,
    parse_number, push_decimal, same, same_ignoring_ascii_case, starts_with, string_of, to_chars,
    trim,
};

#[test]
fn white_space_is_trimmed() {
    assert_eq!(trim(" \t a b \u{3000}\n"), "a b");
    assert_eq!(trim(" \u{a0}"), "");
    assert_eq!(trim(trim("  x ").as_str()), "x");
    assert!(blank(" \r\n\u{2003}"));
    assert!(!blank(" . "));
    for code in 0u32..0x3100 {
        if let Some(c) = char::from_u32(code) {
            assert_eq!(is_whitespace(c), c.is_whitespace(), "{code:x}");
        }
    }
}

#[test]
fn lines_are_split_like_std_splits_them() {
    for s in ["", "\n", "a", "a\n", "a\r\nb", "a\rb\n", "\r\n\r\n", "a\n\nb\r", "x\r\r\n"] {
        let expected: Vec<String> = s.lines().map(|l| l.to_string()).collect();
        assert_eq!(lines(s), expected, "{s:?}");
    }
}

#[test]
fn texts_are_searched() {
    assert!(contains("abcabd", "abd"));
    assert!(!contains("abc", "abcd"));
    assert!(contains("", ""));
    assert!(starts_with("abc", "ab"));
    assert!(!starts_with("abc", "bc"));
    assert!(same("ä", "ä") && !same("a", "b") && !same("a", "ab"));
    assert!(same_ignoring_ascii_case("$TRUE", "$true"));
    assert!(!same_ignoring_ascii_case("Ä", "ä"));
    let words = vec!["a".to_string(), "b".to_string()];
    assert_eq!(copy_strings(&words), words);
    let hay = to_chars("xxab");
    assert_eq!(find_chars(&hay, &to_chars("ab")), Some(2));
    assert_eq!(find_chars(&hay, &to_chars("ba")), None);
    assert!(matches_at(&hay, 2, &to_chars("ab")));
    assert_eq!(string_of(&hay, 1, 3), "xa");
}

#[test]
fn numbers_are_read_and_written() {
    assert_eq!(parse_number("0"), Some(0));
    assert_eq!(parse_number("+12"), Some(12));
    assert_eq!(parse_number("4294967295"), Some(u32::MAX));
    assert_eq!(parse_number("4294967296"), None);
    assert_eq!(parse_number("99999999999999999999999"), None);
    assert_eq!(parse_number(""), None);
    assert_eq!(parse_number("+"), None);
    assert_eq!(parse_number("-1"), None);
    assert_eq!(parse_number("1 "), None);
    let mut s = String::from("n");
    push_decimal(&mut s, 0);
    push_decimal(&mut s, u64::MAX);
    assert_eq!(s, "n018446744073709551615");
}

use transcriber_kun::text::{
    decimal_string, ends_with, lex_less, parse_u32, signed_decimal_string, split_char, split_lines,
    starts_with, trim_start_str, trim_str,
};

#[test]
fn trim_removes_unicode_whitespace() {
    assert_eq!(trim_str("  \t hello \r\n"), "hello");
    assert_eq!(trim_str("\u{3000}x\u{a0}"), "x");
    assert_eq!(trim_str("   "), "");
    assert_eq!(trim_start_str("  a b  "), "a b  ");
}

#[test]
fn lines_follow_str_lines() {
    assert_eq!(split_lines(""), Vec::<String>::new());
    assert_eq!(split_lines("a\nb"), vec!["a", "b"]);
    assert_eq!(split_lines("a\r\nb\n"), vec!["a", "b"]);
    assert_eq!(split_lines("\n"), vec![""]);
    assert_eq!(split_lines("x\r"), vec!["x\r"]);
    assert_eq!(split_lines("a\n\nb"), vec!["a", "", "b"]);
    let text = "one\r\ntwo\n\nthree\r";
    let expected: Vec<String> = text.lines().map(|l| l.to_string()).collect();
    assert_eq!(split_lines(text), expected);
}

#[test]
fn split_keeps_empty_pieces() {
    assert_eq!(split_char("a::b", ':'), vec!["a", "", "b"]);
    assert_eq!(split_char("", ':'), vec![""]);
    assert_eq!(split_char("3.12.4", '.'), vec!["3", "12", "4"]);
}

#[test]
fn parse_u32_matches_std() {
    for s in ["0", "12", "+7", "", "+", "-1", "4294967295", "4294967296", "007", "1a", " 1"] {
        assert_eq!(parse_u32(s), s.parse::<u32>().ok(), "input {:?}", s);
    }
}

#[test]
fn decimal_text() {
    assert_eq!(decimal_string(0), "0");
    assert_eq!(decimal_string(10), "10");
    assert_eq!(decimal_string(18446744073709551615), "18446744073709551615");
    assert_eq!(signed_decimal_string(-1), "-1");
    assert_eq!(signed_decimal_string(i64::MIN), i64::MIN.to_string());
    assert_eq!(signed_decimal_string(42), "42");
}

#[test]
fn prefixes_and_order() {
    assert!(starts_with("Python 3.11", "Python "));
    assert!(!starts_with("Py", "Python "));
    assert!(ends_with("a.memo.txt", ".memo.txt"));
    assert!(!ends_with("a.memo.txt", ".json"));
    assert!(lex_less("2024-01-01", "2024-02-01"));
    assert!(!lex_less("b", "a"));
    assert!(lex_less("", "a"));
    assert!(!lex_less("a", "a"));
    assert!(lex_less("ab", "abc"));
}

use ssh_menu::text::{
    chars_of, decimal_chars, find_text, first_word_chars, lower_chars, parse_port, same_text,
    strip_chars, text_of, trim_chars, CharClass,
};

fn cs(s: &str) -> Vec<char> {
    s.chars().collect()
}

fn st(v: &[char]) -> String {
    v.iter().collect()
}

#[test]
fn trim_unicode_whitespace() {
    assert_eq!(st(&trim_chars(&cs(" \t\u{a0}x y\u{2003}\r\n"))), "x y");
    assert_eq!(st(&trim_chars(&cs("   "))), "");
    assert_eq!(st(&strip_chars(&cs("\"\"a\"b\"\""), CharClass::Quote)), "a\"b");
}

#[test]
fn first_word_skips_leading_blanks() {
    assert_eq!(st(&first_word_chars(&cs("  alpha beta"))), "alpha");
    assert_eq!(st(&first_word_chars(&cs("   "))), "");
}

#[test]
fn substring_search() {
    assert!(find_text(&cs("hello world"), &cs("o w")));
    assert!(find_text(&cs("abc"), &cs("")));
    assert!(!find_text(&cs("abc"), &cs("abcd")));
    assert!(!find_text(&cs("aab"), &cs("ba")));
}

#[test]
fn unicode_lowercase() {
    assert_eq!(st(&lower_chars(&cs("ÀBÇ-Db"))), "àbç-db");
}

#[test]
fn port_parsing_like_u16() {
    assert_eq!(parse_port(&cs("22")), Some(22));
    assert_eq!(parse_port(&cs("+80")), Some(80));
    assert_eq!(parse_port(&cs("0065535")), Some(65535));
    assert_eq!(parse_port(&cs("65536")), None);
    assert_eq!(parse_port(&cs("")), None);
    assert_eq!(parse_port(&cs("+")), None);
    assert_eq!(parse_port(&cs("-1")), None);
    assert_eq!(parse_port(&cs("8a")), None);
    assert_eq!(parse_port(&cs(" 8")), None);
}

#[test]
fn decimal_text() {
    assert_eq!(st(&decimal_chars(0)), "0");
    assert_eq!(st(&decimal_chars(2222)), "2222");
    assert_eq!(st(&decimal_chars(u32::MAX as u64)), u32::MAX.to_string());
    assert_eq!(st(&decimal_chars(u64::MAX)), u64::MAX.to_string());
}

#[test]
fn conversions() {
    assert_eq!(text_of(&chars_of("héllo")), "héllo");
    assert!(same_text(&cs("a"), &cs("a")));
    assert!(!same_text(&cs("a"), &cs("ab")));
}

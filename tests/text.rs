use simple_vm::text::{chars_of, format_decimal, parse_i32, parse_int_or_zero};

fn parse(s: &str) -> Option<i32> {
    let c: Vec<char> = s.chars().collect();
    parse_i32(&c, 0, c.len())
}

fn or_zero(s: &str) -> i32 {
    let c: Vec<char> = s.chars().collect();
    parse_int_or_zero(&c)
}

#[test]
fn parses_decimal_integers() {
    assert_eq!(parse("0"), Some(0));
    assert_eq!(parse("123"), Some(123));
    assert_eq!(parse("-123"), Some(-123));
    assert_eq!(parse("+7"), Some(7));
    assert_eq!(parse("007"), Some(7));
    assert_eq!(parse("2147483647"), Some(i32::MAX));
    assert_eq!(parse("-2147483648"), Some(i32::MIN));
}

#[test]
fn refuses_what_is_no_i32() {
    assert_eq!(parse(""), None);
    assert_eq!(parse("-"), None);
    assert_eq!(parse("+"), None);
    assert_eq!(parse("12a"), None);
    assert_eq!(parse(" 1"), None);
    assert_eq!(parse("2147483648"), None);
    assert_eq!(parse("-2147483649"), None);
    assert_eq!(parse("--1"), None);
}

#[test]
fn parse_in_a_slice() {
    let c: Vec<char> = "ab42cd".chars().collect();
    assert_eq!(parse_i32(&c, 2, 4), Some(42));
}

#[test]
fn trimmed_text_or_zero() {
    assert_eq!(or_zero("  42 \r"), 42);
    assert_eq!(or_zero("\u{3000}-8"), -8);
    assert_eq!(or_zero("forty"), 0);
    assert_eq!(or_zero(""), 0);
}

#[test]
fn formats_decimal_integers() {
    let f = |v: i32| format_decimal(v).into_iter().collect::<String>();
    assert_eq!(f(0), "0");
    assert_eq!(f(8), "8");
    assert_eq!(f(1234), "1234");
    assert_eq!(f(-56), "-56");
    assert_eq!(f(i32::MIN), "-2147483648");
    assert_eq!(f(i32::MAX), "2147483647");
}

#[test]
fn characters_of_a_string() {
    let c = chars_of("héllo\n");
    assert_eq!(c, vec!['h', 'é', 'l', 'l', 'o', '\n']);
    assert!(chars_of("").is_empty());
}

#[test]
fn unicode_white_space_is_trimmed() {
    assert_eq!(or_zero("\u{A0}7"), 7);
    assert_eq!(or_zero("\u{2003}12\u{2029}"), 12);
    assert_eq!(or_zero("\u{85}-3\u{205F}"), -3);
    assert_eq!(or_zero("\u{200B}7"), 0);
}

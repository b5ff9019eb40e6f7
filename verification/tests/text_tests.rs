use telnet_codenames::text::{
    center, dashes_string, find_char, i32_to_string, pad_left, parse_i32, spaces_string,
    starts_with_str, str_eq, trim_str, u64_to_string,
};
use telnet_codenames::ReadLineError;
use telnet_codenames::ReadLineErrorType;

#[test]
fn trim_strips_both_ends() {
    assert_eq!(trim_str("  hello \r\n"), "hello");
    assert_eq!(trim_str("hello"), "hello");
    assert_eq!(trim_str("\t \r\n"), "");
    assert_eq!(trim_str(""), "");
    assert_eq!(trim_str(" a b "), "a b");
}

#[test]
fn parse_accepts_the_integer_grammar() {
    assert_eq!(parse_i32("0"), Some(0));
    assert_eq!(parse_i32("42"), Some(42));
    assert_eq!(parse_i32("+7"), Some(7));
    assert_eq!(parse_i32("-13"), Some(-13));
    assert_eq!(parse_i32("007"), Some(7));
    assert_eq!(parse_i32("2147483647"), Some(i32::MAX));
    assert_eq!(parse_i32("-2147483648"), Some(i32::MIN));
}

#[test]
fn parse_rejects_everything_else() {
    assert_eq!(parse_i32(""), None);
    assert_eq!(parse_i32("-"), None);
    assert_eq!(parse_i32("+"), None);
    assert_eq!(parse_i32("12a"), None);
    assert_eq!(parse_i32(" 5"), None);
    assert_eq!(parse_i32("5 "), None);
    assert_eq!(parse_i32("2147483648"), None);
    assert_eq!(parse_i32("-2147483649"), None);
    assert_eq!(parse_i32("99999999999999999999"), None);
}

#[test]
fn numbers_render_in_decimal() {
    assert_eq!(u64_to_string(0), "0");
    assert_eq!(u64_to_string(9), "9");
    assert_eq!(u64_to_string(10), "10");
    assert_eq!(u64_to_string(90210), "90210");
    assert_eq!(i32_to_string(0), "0");
    assert_eq!(i32_to_string(17), "17");
    assert_eq!(i32_to_string(-3), "-3");
    assert_eq!(i32_to_string(i32::MIN), "-2147483648");
}

#[test]
fn padding_and_rules() {
    assert_eq!(pad_left("ab", 5), "   ab");
    assert_eq!(pad_left("abcdef", 3), "abcdef");
    assert_eq!(center("ab", 6), "  ab  ");
    assert_eq!(center("ab", 5), " ab  ");
    assert_eq!(center("abcdef", 4), "abcdef");
    assert_eq!(spaces_string(3), "   ");
    assert_eq!(dashes_string(4), "----");
    assert_eq!(dashes_string(0), "");
}

#[test]
fn prefix_search_and_equality() {
    assert!(starts_with_str("!!done", "!!"));
    assert!(starts_with_str("!guess", "!"));
    assert!(!starts_with_str("!guess", "!!"));
    assert!(!starts_with_str("", "!"));
    assert_eq!(find_char("word,3", ','), Some(4));
    assert_eq!(find_char("word", ','), None);
    assert!(str_eq("same", "same"));
    assert!(!str_eq("same", "sam"));
}

#[test]
fn read_line_errors_carry_their_kind() {
    let e = ReadLineError::new(ReadLineErrorType::WouldBlock);
    assert_eq!(e.error_type, ReadLineErrorType::WouldBlock);
    assert_ne!(e.error_type, ReadLineErrorType::Disconnected);
    let e2 = e.clone();
    assert_eq!(e2.error_type, ReadLineErrorType::WouldBlock);
}

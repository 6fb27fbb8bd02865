use tlang::decimal::{i32_to_string, parse_decimal};
use tlang::expr::Number;
use tlang::Val;

#[test]
fn number_renders_as_decimal_integer() {
    assert_eq!(Val::Number(5).to_string(), "5");
    assert_eq!(Val::Number(0).to_string(), "0");
    assert_eq!(Val::Number(10).to_string(), "10");
    assert_eq!(Val::Number(1234567890).to_string(), "1234567890");
}

#[test]
fn negative_number_renders_with_a_minus_sign() {
    assert_eq!(Val::Number(-10).to_string(), "-10");
    assert_eq!(Val::Number(-1).to_string(), "-1");
}

#[test]
fn extreme_numbers_render() {
    assert_eq!(Val::Number(i32::MAX).to_string(), "2147483647");
    assert_eq!(Val::Number(i32::MIN).to_string(), "-2147483648");
}

#[test]
fn unit_renders_as_the_word_unit() {
    assert_eq!(Val::Unit.to_string(), "Unit");
}

#[test]
fn i32_to_string_agrees_with_std() {
    for n in [0, 1, 9, 10, 11, 99, 100, 101, 4096, -4096, 99999, i32::MAX, i32::MIN] {
        assert_eq!(i32_to_string(n), format!("{}", n));
    }
}

#[test]
fn parse_decimal_reads_digit_runs() {
    assert_eq!(parse_decimal("0"), Some(0));
    assert_eq!(parse_decimal("7"), Some(7));
    assert_eq!(parse_decimal("007"), Some(7));
    assert_eq!(parse_decimal("132"), Some(132));
    assert_eq!(parse_decimal("2147483647"), Some(i32::MAX));
    assert_eq!(parse_decimal("00000000000000000002147483647"), Some(i32::MAX));
    assert_eq!(parse_decimal(""), Some(0));
}

#[test]
fn parse_decimal_rejects_what_does_not_fit() {
    assert_eq!(parse_decimal("2147483648"), None);
    assert_eq!(parse_decimal("2147483650"), None);
    assert_eq!(parse_decimal("9999999999"), None);
    assert_eq!(parse_decimal("99999999999999999999999999"), None);
}

#[test]
fn parse_decimal_rejects_what_is_no_digit_run() {
    assert_eq!(parse_decimal("12a"), None);
    assert_eq!(parse_decimal("-1"), None);
    assert_eq!(parse_decimal(" 1"), None);
    assert_eq!(parse_decimal("٣"), None);
}

#[test]
fn decimal_text_of_a_number_parses_back_to_it() {
    for n in [0, 1, 9, 10, 19, 100, 65535, 1000000007, i32::MAX] {
        let text = i32_to_string(n);
        assert_eq!(Number::new(&text), Ok(("", Number(n))));
    }
}

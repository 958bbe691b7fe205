use vcc::number::{number_text, parse_number};
use vcc::ui::{changer, Step};

#[test]
fn plain_digits_are_read() {
    assert_eq!(parse_number("0"), Some(0));
    assert_eq!(parse_number("12"), Some(12));
    assert_eq!(parse_number("9223372036854775807"), Some(i64::MAX));
}

#[test]
fn signs_are_read() {
    assert_eq!(parse_number("-7"), Some(-7));
    assert_eq!(parse_number("+5"), Some(5));
    assert_eq!(parse_number("-0"), Some(0));
    assert_eq!(parse_number("-9223372036854775808"), Some(i64::MIN));
}

#[test]
fn leading_zeros_are_read() {
    assert_eq!(parse_number("007"), Some(7));
    assert_eq!(parse_number("-007"), Some(-7));
    assert_eq!(parse_number("0000000000000000000000000012"), Some(12));
}

#[test]
fn text_without_digits_is_no_number() {
    assert_eq!(parse_number(""), None);
    assert_eq!(parse_number("+"), None);
    assert_eq!(parse_number("-"), None);
    assert_eq!(parse_number("abc"), None);
}

#[test]
fn text_with_other_characters_is_no_number() {
    assert_eq!(parse_number("1a"), None);
    assert_eq!(parse_number(" 1"), None);
    assert_eq!(parse_number("1 "), None);
    assert_eq!(parse_number("1_000"), None);
    assert_eq!(parse_number("+-5"), None);
    assert_eq!(parse_number("--5"), None);
    assert_eq!(parse_number("1.5"), None);
    assert_eq!(parse_number("٣"), None);
}

#[test]
fn numbers_out_of_range_are_no_numbers() {
    assert_eq!(parse_number("9223372036854775808"), None);
    assert_eq!(parse_number("-9223372036854775809"), None);
    assert_eq!(parse_number("100000000000000000000"), None);
}

#[test]
fn numbers_are_written_in_decimal() {
    assert_eq!(number_text(0), "0");
    assert_eq!(number_text(7), "7");
    assert_eq!(number_text(10), "10");
    assert_eq!(number_text(-1), "-1");
    assert_eq!(number_text(1234567890), "1234567890");
    assert_eq!(number_text(i64::MAX), "9223372036854775807");
    assert_eq!(number_text(i64::MIN), "-9223372036854775808");
}

#[test]
fn written_numbers_are_read_back() {
    for n in [0, 1, -1, 9, 10, 99, 100, -100, 4096, i64::MAX, i64::MIN, i64::MAX - 1, i64::MIN + 1]
    {
        assert_eq!(parse_number(&number_text(n)), Some(n));
    }
}

#[test]
fn steps_change_the_number_by_one() {
    assert_eq!(changer("5", Step::Up), Some("6".to_owned()));
    assert_eq!(changer("5", Step::Down), Some("4".to_owned()));
    assert_eq!(changer("0", Step::Down), Some("-1".to_owned()));
    assert_eq!(changer("-1", Step::Up), Some("0".to_owned()));
    assert_eq!(changer("9", Step::Up), Some("10".to_owned()));
}

#[test]
fn keeping_writes_the_number_anew() {
    assert_eq!(changer("007", Step::Keep), Some("7".to_owned()));
    assert_eq!(changer("+5", Step::Keep), Some("5".to_owned()));
    assert_eq!(changer("-0", Step::Keep), Some("0".to_owned()));
    assert_eq!(changer("12", Step::Keep), Some("12".to_owned()));
}

#[test]
fn a_field_that_is_no_number_is_not_changed() {
    assert_eq!(changer("", Step::Up), None);
    assert_eq!(changer("abc", Step::Keep), None);
    assert_eq!(changer("1x", Step::Down), None);
}

#[test]
fn a_step_out_of_range_is_not_carried_out() {
    assert_eq!(changer("9223372036854775807", Step::Up), None);
    assert_eq!(changer("-9223372036854775808", Step::Down), None);
    assert_eq!(
        changer("9223372036854775807", Step::Down),
        Some("9223372036854775806".to_owned())
    );
    assert_eq!(
        changer("-9223372036854775808", Step::Up),
        Some("-9223372036854775807".to_owned())
    );
    assert_eq!(
        changer("9223372036854775807", Step::Keep),
        Some("9223372036854775807".to_owned())
    );
}

use udl_codegen::number::{int_to_string, parse_int, parse_number};

#[test]
fn numbers_are_read_as_decimal() {
    assert_eq!(parse_number("0"), Some(0));
    assert_eq!(parse_number("8"), Some(8));
    assert_eq!(parse_number("32"), Some(32));
    assert_eq!(parse_number("007"), Some(7));
    assert_eq!(parse_number("1234567890"), Some(1234567890));
}

#[test]
fn numbers_may_have_a_sign() {
    assert_eq!(parse_number("-1"), Some(-1));
    assert_eq!(parse_number("+1"), Some(1));
    assert_eq!(parse_number("-0"), Some(0));
    assert_eq!(parse_number("-"), None);
    assert_eq!(parse_number("+"), None);
    assert_eq!(parse_number("+-1"), None);
    assert_eq!(parse_number("--1"), None);
}

#[test]
fn other_text_is_no_number() {
    assert_eq!(parse_number(""), None);
    assert_eq!(parse_number(" 1"), None);
    assert_eq!(parse_number("1 "), None);
    assert_eq!(parse_number("1_000"), None);
    assert_eq!(parse_number("1.5"), None);
    assert_eq!(parse_number("12a"), None);
    assert_eq!(parse_number("٣"), None);
}

#[test]
fn numbers_agree_with_the_standard_parser() {
    for text in [
        "0", "-0", "+0", "17", "-17", "+17", "", "-", "+", "1-", "a", "0x10", "000000000000000000001",
        "9223372036854775807", "9223372036854775808", "-9223372036854775808",
        "-9223372036854775809", "2147483647", "2147483648", "-2147483648", "-2147483649",
        "99999999999999999999999999999999999999999",
    ] {
        assert_eq!(parse_number(text), text.parse::<isize>().ok(), "{:?}", text);
    }
}

#[test]
fn the_largest_and_the_smallest_number() {
    assert_eq!(parse_number(&isize::MAX.to_string()), Some(isize::MAX));
    assert_eq!(parse_number(&isize::MIN.to_string()), Some(isize::MIN));
}

#[test]
fn a_number_is_read_from_part_of_the_characters() {
    let chars: Vec<char> = "10...-25".chars().collect();
    assert_eq!(parse_int(&chars, 0, 2), Some(10));
    assert_eq!(parse_int(&chars, 5, 8), Some(-25));
    assert_eq!(parse_int(&chars, 6, 8), Some(25));
    assert_eq!(parse_int(&chars, 0, 3), None);
    assert_eq!(parse_int(&chars, 2, 2), None);
    assert_eq!(parse_int(&chars, 0, 8), None);
}

#[test]
fn numbers_are_written_as_decimal() {
    assert_eq!(int_to_string(0), "0");
    assert_eq!(int_to_string(8), "8");
    assert_eq!(int_to_string(32), "32");
    assert_eq!(int_to_string(-1), "-1");
    assert_eq!(int_to_string(100), "100");
    assert_eq!(int_to_string(-1050), "-1050");
    assert_eq!(int_to_string(isize::MAX), isize::MAX.to_string());
    assert_eq!(int_to_string(isize::MIN), isize::MIN.to_string());
}

#[test]
fn what_is_written_is_read_back() {
    for n in [0isize, 1, -1, 9, 10, 11, 99, 100, 101, -99, -100, 65535, -65536, isize::MAX, isize::MIN] {
        assert_eq!(parse_number(&int_to_string(n)), Some(n));
    }
}

use swedbank_ynab::decimal::{is_ascii_digit, parse_i64, read_number};
use swedbank_ynab::swed::EntryType;
use swedbank_ynab::transaction::fmt_amount;
use swedbank_ynab::ynab::parse_i64_string;

fn cs(s: &str) -> Vec<char> {
    s.chars().collect()
}

const NUMBERS: [&str; 26] = [
    "",
    "0",
    "7",
    "-0",
    "+0",
    "+",
    "-",
    "+-1",
    "--1",
    "1299",
    "-1299",
    "+1299",
    "0001299",
    "12 99",
    " 1299",
    "1299 ",
    "12.99",
    "12a",
    "a12",
    "१२",
    "9223372036854775807",
    "9223372036854775808",
    "-9223372036854775808",
    "-9223372036854775809",
    "00000000000000000000000000000000000000000000000000017",
    "99999999999999999999999999999999999999999999999999999",
];

#[test]
fn parse_i64_agrees_with_std() {
    for s in NUMBERS {
        assert_eq!(parse_i64(&cs(s)), s.parse::<i64>().ok(), "{:?}", s);
    }
}

#[test]
fn digits_are_the_ten_ascii_ones() {
    let mut n: u32 = 0;
    while n <= 0x10FFFF {
        if let Some(c) = char::from_u32(n) {
            assert_eq!(is_ascii_digit(c), c.is_ascii_digit(), "U+{:04X}", n);
        }
        n += 1;
    }
}

#[test]
fn parse_i64_string_takes_the_commas_out() {
    assert_eq!(parse_i64_string("12,99"), Some(1299));
    assert_eq!(parse_i64_string("0,49"), Some(49));
    assert_eq!(parse_i64_string("-5,00"), Some(-500));
    assert_eq!(parse_i64_string("1,2,3"), Some(123));
    assert_eq!(parse_i64_string(","), None);
    assert_eq!(parse_i64_string(""), None);
    assert_eq!(parse_i64_string("12.99"), None);
    assert_eq!(parse_i64_string("abc"), None);
    assert_eq!(parse_i64_string("92233720368547758,07"), Some(i64::MAX));
    assert_eq!(parse_i64_string("92233720368547758,08"), None);
}

#[test]
fn amount_reads_the_comma_as_the_decimal_point() {
    assert_eq!(fmt_amount("123,45", &EntryType::Credit), 123450);
    assert_eq!(fmt_amount("123,45", &EntryType::Debit), -123450);
    assert_eq!(fmt_amount("12,5", &EntryType::Credit), 12500);
    assert_eq!(fmt_amount("12,5", &EntryType::Debit), -12500);
    assert_eq!(fmt_amount("12,50", &EntryType::Credit), 12500);
    assert_eq!(fmt_amount("12,500", &EntryType::Credit), 12500);
    assert_eq!(fmt_amount("12,345", &EntryType::Credit), 12345);
    assert_eq!(fmt_amount("12,05", &EntryType::Credit), 12050);
    assert_eq!(fmt_amount("12,005", &EntryType::Debit), -12005);
    assert_eq!(fmt_amount("0,00", &EntryType::Debit), 0);
    assert_eq!(fmt_amount("0012,30", &EntryType::Credit), 12300);
}

#[test]
fn amount_without_a_comma_is_whole_units() {
    assert_eq!(fmt_amount("7", &EntryType::Credit), 7000);
    assert_eq!(fmt_amount("7", &EntryType::Debit), -7000);
    assert_eq!(fmt_amount("0", &EntryType::Debit), 0);
    assert_eq!(fmt_amount("1299", &EntryType::Credit), 1299000);
}

#[test]
fn amount_goes_there_and_back() {
    for (written, units, thousandths) in [
        ("0,0", 0, 0),
        ("0,01", 0, 10),
        ("0,49", 0, 490),
        ("12,5", 12, 500),
        ("12,99", 12, 990),
        ("12,999", 12, 999),
        ("100,00", 100, 0),
        ("99999,99", 99999, 990),
    ] {
        let credit = fmt_amount(written, &EntryType::Credit);
        assert_eq!(credit / 1000, units, "{}", written);
        assert_eq!(credit % 1000, thousandths, "{}", written);
        assert_eq!(fmt_amount(written, &EntryType::Debit), -credit);
        let value: f64 = written.replace(",", ".").parse().unwrap();
        assert_eq!(credit as f64 / 1000.0, value, "{}", written);
    }
}

#[test]
fn sign_of_an_amount_comes_from_the_entry_type_alone() {
    for written in ["0,01", "12,99", "7", "5,5", "abc", "", "-1,50", "1,2,3"] {
        assert!(fmt_amount(written, &EntryType::Debit) <= 0, "{}", written);
        assert!(fmt_amount(written, &EntryType::Credit) >= 0, "{}", written);
    }
}

#[test]
fn amount_that_is_no_number_counts_as_zero() {
    assert_eq!(fmt_amount("", &EntryType::Credit), 0);
    assert_eq!(fmt_amount("abc", &EntryType::Debit), 0);
    assert_eq!(fmt_amount("12.99", &EntryType::Debit), 0);
    assert_eq!(fmt_amount("12,9 9", &EntryType::Credit), 0);
    assert_eq!(fmt_amount(" 12,99", &EntryType::Credit), 0);
    assert_eq!(fmt_amount("12,9a", &EntryType::Credit), 0);
}

#[test]
fn amount_with_a_sign_counts_as_zero() {
    assert_eq!(fmt_amount("-1,50", &EntryType::Debit), 0);
    assert_eq!(fmt_amount("-1,50", &EntryType::Credit), 0);
    assert_eq!(fmt_amount("+1,50", &EntryType::Credit), 0);
    assert_eq!(fmt_amount("-7", &EntryType::Debit), 0);
    assert_eq!(fmt_amount("1,-5", &EntryType::Credit), 0);
    assert_eq!(fmt_amount("1,+5", &EntryType::Credit), 0);
}

#[test]
fn amount_with_more_than_one_comma_counts_as_zero() {
    assert_eq!(fmt_amount("1,2,3", &EntryType::Credit), 0);
    assert_eq!(fmt_amount("1,,2", &EntryType::Credit), 0);
    assert_eq!(fmt_amount("1,000,00", &EntryType::Debit), 0);
    assert_eq!(fmt_amount(",,", &EntryType::Debit), 0);
}

#[test]
fn amount_needs_digits_on_both_sides_of_the_comma() {
    assert_eq!(fmt_amount(",5", &EntryType::Credit), 0);
    assert_eq!(fmt_amount("12,", &EntryType::Credit), 0);
    assert_eq!(fmt_amount(",", &EntryType::Credit), 0);
}

#[test]
fn amount_with_more_than_three_digits_behind_the_comma_counts_as_zero() {
    assert_eq!(fmt_amount("12,3456", &EntryType::Credit), 0);
    assert_eq!(fmt_amount("12,5000", &EntryType::Credit), 0);
    assert_eq!(fmt_amount("0,0000", &EntryType::Debit), 0);
}

#[test]
fn amount_too_large_for_milliunits_counts_as_zero() {
    assert_eq!(fmt_amount("9223372036854775,807", &EntryType::Credit), i64::MAX);
    assert_eq!(fmt_amount("9223372036854775,808", &EntryType::Credit), 0);
    assert_eq!(fmt_amount("9223372036854775,807", &EntryType::Debit), -i64::MAX);
    assert_eq!(fmt_amount("9223372036854775,808", &EntryType::Debit), 0);
    assert_eq!(fmt_amount("9223372036854775,80", &EntryType::Credit), 9223372036854775800);
    assert_eq!(fmt_amount("9223372036854775,81", &EntryType::Credit), 0);
    assert_eq!(fmt_amount("9223372036854775", &EntryType::Credit), 9223372036854775000);
    assert_eq!(fmt_amount("9223372036854776", &EntryType::Credit), 0);
    assert_eq!(fmt_amount("9223372036854775807", &EntryType::Credit), 0);
    assert_eq!(fmt_amount("999999999999999999999,99", &EntryType::Credit), 0);
}

#[test]
fn read_number_takes_digits_alone() {
    assert_eq!(read_number(&cs("0")), Some(0));
    assert_eq!(read_number(&cs("0012")), Some(12));
    assert_eq!(read_number(&cs("9223372036854775807")), Some(i64::MAX));
    assert_eq!(read_number(&cs("9223372036854775808")), None);
    assert_eq!(read_number(&cs("")), None);
    assert_eq!(read_number(&cs("-1")), None);
    assert_eq!(read_number(&cs("+1")), None);
    assert_eq!(read_number(&cs("1a")), None);
    assert_eq!(read_number(&cs("१२")), None);
}

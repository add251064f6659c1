use data_manipulation::decimal::{is_numeric_text, Decimal, SCALE_LIMIT};

fn parsed(text: &str) -> Decimal {
    Decimal::parse(text).unwrap()
}

#[test]
fn parses_integers_of_any_size() {
    assert_eq!(parsed("0"), Decimal::from_i64(0));
    assert_eq!(parsed("32768"), Decimal::from_i64(32768));
    assert_eq!(parsed("-32769"), Decimal::from_i64(-32769));
    assert_eq!(parsed("9223372036854775807"), Decimal::from_i64(i64::MAX));
    assert_eq!(parsed("-9223372036854775808"), Decimal::from_i64(i64::MIN));
    assert_eq!(parsed("-9223372036854775809").to_i64(), None);
    assert_eq!(parsed("9223372036854775808").to_i64(), None);
    assert_eq!(parsed("123456789012345678901234567890").to_text(), "123456789012345678901234567890");
}

#[test]
fn parse_builds_the_parts_that_were_read() {
    assert_eq!(Some(parsed("12.50")), Decimal::from_parts(false, vec![1, 2, 5, 0], 2));
    assert_eq!(Some(parsed("-0.007")), Decimal::from_parts(true, vec![7], 3));
    assert_eq!(Some(parsed("1e3")), Decimal::from_parts(false, vec![1], -3));
    assert_eq!(Some(parsed("2.5E-2")), Decimal::from_parts(false, vec![2, 5], 3));
    assert_eq!(Some(parsed("0")), Decimal::from_parts(false, vec![0], 0));
}

#[test]
fn rejects_what_is_not_a_number() {
    assert_eq!(Decimal::parse("str"), None);
    assert_eq!(Decimal::parse(""), None);
    assert_eq!(Decimal::parse("12a"), None);
    assert_eq!(Decimal::parse("1.2.3"), None);
    assert_eq!(Decimal::parse("--1"), None);
    assert_eq!(Decimal::parse("١٢٣"), None);
}

#[test]
fn rejects_exponents_beyond_the_limits() {
    assert!(is_numeric_text("1e123456789012345678"));
    assert!(!is_numeric_text("1e1234567890123456789"));
    assert!(!is_numeric_text("1e-9223372036854775808"));
    assert_eq!(Decimal::parse("1e-9223372036854775808"), None);
    assert_eq!(Decimal::parse("1e131072").map(|d| d.scale()), Some(-SCALE_LIMIT));
    assert_eq!(Decimal::parse("1e131073"), None);
    assert_eq!(Decimal::parse("1e-131072").map(|d| d.scale()), Some(SCALE_LIMIT));
    assert_eq!(Decimal::parse("1e-131073"), None);
}

#[test]
fn from_parts_checks_digits_and_scale() {
    assert!(Decimal::from_parts(false, vec![9, 9], 0).is_some());
    assert!(Decimal::from_parts(false, vec![], 0).is_some());
    assert!(Decimal::from_parts(false, vec![1, 10], 0).is_none());
    assert!(Decimal::from_parts(false, vec![1], SCALE_LIMIT).is_some());
    assert!(Decimal::from_parts(false, vec![1], SCALE_LIMIT + 1).is_none());
    assert!(Decimal::from_parts(false, vec![1], -SCALE_LIMIT - 1).is_none());
}

#[test]
fn narrows_by_rounding_toward_zero() {
    assert_eq!(parsed("1.9").to_i64(), Some(1));
    assert_eq!(parsed("-1.9").to_i64(), Some(-1));
    assert_eq!(parsed("0.999").to_i64(), Some(0));
    assert_eq!(parsed("-0.5").to_i64(), Some(0));
    assert_eq!(parsed("12e2").to_i64(), Some(1200));
    assert_eq!(parsed("1200e-2").to_i64(), Some(12));
    assert_eq!(parsed("0e100").to_i64(), Some(0));
    assert_eq!(parsed("1e19").to_i64(), None);
    assert_eq!(parsed("9223372036854775807.9").to_i64(), Some(i64::MAX));
    assert_eq!(parsed("-9223372036854775808.9").to_i64(), Some(i64::MIN));
    assert_eq!(parsed("32767").to_i16(), Some(32767));
    assert_eq!(parsed("32768").to_i16(), None);
    assert_eq!(parsed("-32768").to_i16(), Some(-32768));
    assert_eq!(parsed("-32769").to_i16(), None);
    assert_eq!(parsed("2147483647").to_i32(), Some(2147483647));
    assert_eq!(parsed("2147483648").to_i32(), None);
    assert_eq!(parsed("-2147483648").to_i32(), Some(-2147483648));
    assert_eq!(parsed("-2147483649").to_i32(), None);
}

#[test]
fn range_of_sixteen_bits() {
    assert!(parsed("32767").is_within(-32768, 32767));
    assert!(parsed("-32768").is_within(-32768, 32767));
    assert!(!parsed("32768").is_within(-32768, 32767));
    assert!(!parsed("-32769").is_within(-32768, 32767));
    assert!(!parsed("32767.5").is_within(-32768, 32767));
    assert!(!parsed("-32768.0001").is_within(-32768, 32767));
    assert!(parsed("32767.000").is_within(-32768, 32767));
    assert!(parsed("-0.5").is_within(-32768, 32767));
    assert!(parsed("3.2767e4").is_within(-32768, 32767));
    assert!(!parsed("3.2768e4").is_within(-32768, 32767));
}

#[test]
fn range_of_thirty_two_bits() {
    assert!(parsed("2147483647").is_within(-2147483648, 2147483647));
    assert!(parsed("-2147483648").is_within(-2147483648, 2147483647));
    assert!(!parsed("2147483648").is_within(-2147483648, 2147483647));
    assert!(!parsed("-2147483649").is_within(-2147483648, 2147483647));
}

#[test]
fn range_of_sixty_four_bits() {
    assert!(parsed("9223372036854775807").is_within(i64::MIN, i64::MAX));
    assert!(parsed("-9223372036854775808").is_within(i64::MIN, i64::MAX));
    assert!(!parsed("9223372036854775808").is_within(i64::MIN, i64::MAX));
    assert!(!parsed("-9223372036854775809").is_within(i64::MIN, i64::MAX));
    assert!(!parsed("9223372036854775807.1").is_within(i64::MIN, i64::MAX));
    assert!(!parsed("-9223372036854775808.1").is_within(i64::MIN, i64::MAX));
    assert!(!parsed("1e131072").is_within(i64::MIN, i64::MAX));
    assert!(parsed("1e-131072").is_within(i64::MIN, i64::MAX));
    assert!(!parsed("1e-131072").is_within(1, i64::MAX));
    assert!(!parsed("-1e-131072").is_within(0, i64::MAX));
}

#[test]
fn tells_fractions_from_integers() {
    assert!(!parsed("5").has_fraction());
    assert!(!parsed("5.000").has_fraction());
    assert!(parsed("5.001").has_fraction());
    assert!(!parsed("5e3").has_fraction());
    assert!(parsed("0.1").has_fraction());
    assert!(!parsed("0.0").has_fraction());
}

#[test]
fn formats_as_decimal_text() {
    assert_eq!(Decimal::from_i64(-32769).to_text(), "-32769");
    assert_eq!(Decimal::from_i64(0).to_text(), "0");
    assert_eq!(parsed("12.50").to_text(), "12.50");
    assert_eq!(parsed("-0.007").to_text(), "-0.007");
    assert_eq!(parsed("1e3").to_text(), "1000");
    assert_eq!(Decimal::from_i64(i64::MIN).to_text(), "-9223372036854775808");
}

#[test]
fn adds_and_subtracts_at_the_larger_scale() {
    assert_eq!(parsed("1.5").plus(&parsed("2.25")), parsed("3.75"));
    assert_eq!(parsed("9223372036854775807").plus(&parsed("1")), parsed("9223372036854775808"));
    assert_eq!(parsed("1").minus(&parsed("0.001")), parsed("0.999"));
    assert_eq!(parsed("-9223372036854775808").minus(&parsed("1")), parsed("-9223372036854775809"));
    assert_eq!(parsed("1e2").plus(&parsed("1")), parsed("101"));
    assert_eq!(parsed("5").minus(&parsed("5")), Decimal::from_i64(0));
}

#[test]
fn negates() {
    assert_eq!(parsed("5").negated(), parsed("-5"));
    assert_eq!(parsed("-5.5").negated(), parsed("5.5"));
    assert_eq!(parsed("0").negated(), parsed("0"));
    assert_eq!(Decimal::from_i64(i64::MIN).negated(), parsed("9223372036854775808"));
}

#[test]
fn clones() {
    let number = parsed("-123.456");
    assert_eq!(number.clone(), number);
    assert_eq!(number.scale(), 3);
}

#[test]
fn same_numbers_are_told_whatever_their_scale() {
    assert!(parsed("1.0").same_number(&parsed("1")));
    assert!(parsed("1").same_number(&parsed("1.000")));
    assert!(parsed("12e2").same_number(&parsed("1200")));
    assert!(parsed("-0.50").same_number(&parsed("-5e-1")));
    assert!(parsed("0").same_number(&parsed("0e5")));
    assert!(!parsed("1").same_number(&parsed("1.001")));
    assert!(!parsed("1").same_number(&parsed("-1")));
    assert!(parsed("1.0") != parsed("1"));
    assert!(parsed("0.000").is_zero());
    assert!(Decimal::from_parts(true, vec![], 3).unwrap().is_zero());
    assert!(!parsed("0.001").is_zero());
}

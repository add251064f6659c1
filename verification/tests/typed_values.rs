use data_manipulation::binary::Datum;
use data_manipulation::decimal::Decimal;
use data_manipulation::typed_values::TypedValue;
use data_manipulation::types::SqlTypeFamily;

fn number(text: &str, type_family: SqlTypeFamily) -> TypedValue {
    TypedValue::Num { value: Decimal::parse(text).unwrap(), type_family }
}

#[test]
fn values_know_their_family() {
    assert_eq!(number("1", SqlTypeFamily::BigInt).type_family(), Some(SqlTypeFamily::BigInt));
    assert_eq!(number("100000", SqlTypeFamily::SmallInt).type_family(), Some(SqlTypeFamily::SmallInt));
    assert_eq!(TypedValue::String("1".to_owned()).type_family(), Some(SqlTypeFamily::String));
    assert_eq!(TypedValue::Bool(true).type_family(), Some(SqlTypeFamily::Bool));
}

#[test]
fn values_convert_to_cells_of_their_width() {
    assert_eq!(number("1000", SqlTypeFamily::SmallInt).convert(), Datum::Int16(1000));
    assert_eq!(number("2000000", SqlTypeFamily::Integer).convert(), Datum::Int32(2_000_000));
    assert_eq!(number("3000000000", SqlTypeFamily::BigInt).convert(), Datum::Int64(3_000_000_000));
    assert_eq!(number("-32768", SqlTypeFamily::SmallInt).convert(), Datum::Int16(i16::MIN));
    assert_eq!(number("7.9", SqlTypeFamily::SmallInt).convert(), Datum::Int16(7));
    assert_eq!(TypedValue::String("abc".to_owned()).convert(), Datum::String("abc".to_owned()));
    assert_eq!(TypedValue::Bool(true).convert(), Datum::True);
    assert_eq!(TypedValue::Bool(false).as_to_datum(), Datum::False);
    assert_eq!(number("5", SqlTypeFamily::Integer).as_to_datum(), Datum::Int32(5));
}

#[test]
fn only_numbers_in_range_of_an_integer_family_are_storable() {
    assert!(number("32767", SqlTypeFamily::SmallInt).is_storable());
    assert!(!number("32768", SqlTypeFamily::SmallInt).is_storable());
    assert!(number("32768", SqlTypeFamily::Integer).is_storable());
    assert!(!number("1", SqlTypeFamily::String).is_storable());
    assert!(!number("1", SqlTypeFamily::Bool).is_storable());
    assert!(TypedValue::String("x".to_owned()).is_storable());
    assert!(TypedValue::Bool(false).is_storable());
}

#[test]
fn cells_decode_to_the_value_that_was_converted() {
    let values = vec![
        number("32767", SqlTypeFamily::SmallInt),
        number("-32768", SqlTypeFamily::SmallInt),
        number("-2147483648", SqlTypeFamily::Integer),
        number("9223372036854775807", SqlTypeFamily::BigInt),
        number("0", SqlTypeFamily::BigInt),
        TypedValue::String("text".to_owned()),
        TypedValue::Bool(true),
        TypedValue::Bool(false),
    ];
    for value in values {
        assert_eq!(TypedValue::from_datum(&value.convert()), Some(value));
    }
    assert_eq!(TypedValue::from_datum(&Datum::Null), None);
}

#[test]
fn numbers_written_otherwise_decode_to_the_same_number() {
    let decoded = TypedValue::from_datum(&number("1.2e3", SqlTypeFamily::SmallInt).convert());
    assert_eq!(decoded, Some(number("1200", SqlTypeFamily::SmallInt)));
    let decoded = TypedValue::from_datum(&number("15.000", SqlTypeFamily::BigInt).convert());
    assert_eq!(decoded, Some(number("15", SqlTypeFamily::BigInt)));
}

#[test]
fn values_have_a_text() {
    assert_eq!(number("-12.5", SqlTypeFamily::BigInt).to_text(), "-12.5");
    assert_eq!(TypedValue::String("str".to_owned()).to_text(), "str");
    assert_eq!(TypedValue::Bool(true).to_text(), "true");
    assert_eq!(TypedValue::Bool(false).to_text(), "false");
}

#[test]
fn clones_are_equal() {
    let value = number("123456789012345678901234567890", SqlTypeFamily::BigInt);
    assert_eq!(value.clone(), value);
    let value = TypedValue::String("abc".to_owned());
    assert_eq!(value.clone(), value);
}

#[test]
fn same_values_are_told_whatever_their_scale() {
    assert!(number("1.0", SqlTypeFamily::SmallInt).same_as(&number("1", SqlTypeFamily::SmallInt)));
    assert!(number("1e3", SqlTypeFamily::BigInt).same_as(&number("1000.00", SqlTypeFamily::BigInt)));
    assert!(number("-0.0", SqlTypeFamily::BigInt).same_as(&number("0", SqlTypeFamily::BigInt)));
    assert!(!number("1.0", SqlTypeFamily::SmallInt).same_as(&number("1.01", SqlTypeFamily::SmallInt)));
    assert!(!number("1", SqlTypeFamily::SmallInt).same_as(&number("-1", SqlTypeFamily::SmallInt)));
    assert!(!number("1", SqlTypeFamily::SmallInt).same_as(&number("1", SqlTypeFamily::Integer)));
    assert!(number("1.0", SqlTypeFamily::SmallInt) != number("1", SqlTypeFamily::SmallInt));
    assert!(TypedValue::String("a".to_owned()).same_as(&TypedValue::String("a".to_owned())));
    assert!(!TypedValue::String("a".to_owned()).same_as(&TypedValue::String("b".to_owned())));
    assert!(TypedValue::Bool(true).same_as(&TypedValue::Bool(true)));
    assert!(!TypedValue::Bool(true).same_as(&TypedValue::Bool(false)));
    assert!(!TypedValue::Bool(true).same_as(&TypedValue::String("true".to_owned())));
    assert!(!number("1", SqlTypeFamily::SmallInt).same_as(&TypedValue::String("1".to_owned())));
}

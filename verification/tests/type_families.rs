use data_manipulation::types::SqlTypeFamily;

fn all() -> Vec<SqlTypeFamily> {
    vec![
        SqlTypeFamily::Bool,
        SqlTypeFamily::String,
        SqlTypeFamily::SmallInt,
        SqlTypeFamily::Integer,
        SqlTypeFamily::BigInt,
    ]
}

#[test]
fn identical_families_compare_to_themselves() {
    for family in all() {
        assert_eq!(family.compare(&family), Ok(family));
    }
}

#[test]
fn integer_families_widen_to_the_larger() {
    assert_eq!(SqlTypeFamily::SmallInt.compare(&SqlTypeFamily::Integer), Ok(SqlTypeFamily::Integer));
    assert_eq!(SqlTypeFamily::Integer.compare(&SqlTypeFamily::SmallInt), Ok(SqlTypeFamily::Integer));
    assert_eq!(SqlTypeFamily::SmallInt.compare(&SqlTypeFamily::BigInt), Ok(SqlTypeFamily::BigInt));
    assert_eq!(SqlTypeFamily::BigInt.compare(&SqlTypeFamily::SmallInt), Ok(SqlTypeFamily::BigInt));
    assert_eq!(SqlTypeFamily::Integer.compare(&SqlTypeFamily::BigInt), Ok(SqlTypeFamily::BigInt));
    assert_eq!(SqlTypeFamily::BigInt.compare(&SqlTypeFamily::Integer), Ok(SqlTypeFamily::BigInt));
}

#[test]
fn comparison_is_symmetric() {
    for a in all() {
        for b in all() {
            assert_eq!(a.compare(&b), b.compare(&a));
        }
    }
}

#[test]
fn mixed_kinds_are_incompatible() {
    let integers = [SqlTypeFamily::SmallInt, SqlTypeFamily::Integer, SqlTypeFamily::BigInt];
    for integer in integers {
        assert_eq!(integer.compare(&SqlTypeFamily::String), Err(()));
        assert_eq!(integer.compare(&SqlTypeFamily::Bool), Err(()));
        assert_eq!(SqlTypeFamily::String.compare(&integer), Err(()));
        assert_eq!(SqlTypeFamily::Bool.compare(&integer), Err(()));
    }
    assert_eq!(SqlTypeFamily::String.compare(&SqlTypeFamily::Bool), Err(()));
    assert_eq!(SqlTypeFamily::Bool.compare(&SqlTypeFamily::String), Err(()));
}

#[test]
fn ranges_of_the_integer_families() {
    assert_eq!(SqlTypeFamily::SmallInt.range(), Some((-32768, 32767)));
    assert_eq!(SqlTypeFamily::Integer.range(), Some((-2147483648, 2147483647)));
    assert_eq!(SqlTypeFamily::BigInt.range(), Some((i64::MIN, i64::MAX)));
    assert_eq!(SqlTypeFamily::String.range(), None);
    assert_eq!(SqlTypeFamily::Bool.range(), None);
    assert!(SqlTypeFamily::SmallInt.is_integer_family());
    assert!(!SqlTypeFamily::Bool.is_integer_family());
}

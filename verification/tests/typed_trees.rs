use data_manipulation::decimal::Decimal;
use data_manipulation::query_result::QueryExecutionError;
use data_manipulation::typed_tree::{
    cast, BiOperator, DynamicTypedTree, Row, StaticTypedTree, TypedTree, UnOperator,
};
use data_manipulation::typed_values::TypedValue;
use data_manipulation::types::SqlTypeFamily;

fn number(text: &str, type_family: SqlTypeFamily) -> TypedValue {
    TypedValue::Num { value: Decimal::parse(text).unwrap(), type_family }
}

fn text(value: &str) -> TypedValue {
    TypedValue::String(value.to_owned())
}

fn constant(value: TypedValue) -> TypedTree {
    TypedTree::Constant(value)
}

fn column(name: &str) -> TypedTree {
    TypedTree::ColumnReference(name.to_owned())
}

fn unary(op: UnOperator, item: TypedTree) -> TypedTree {
    TypedTree::UnaryOp { op, item: Box::new(item) }
}

fn binary(op: BiOperator, left: TypedTree, right: TypedTree) -> TypedTree {
    TypedTree::BinaryOp { op, left: Box::new(left), right: Box::new(right) }
}

fn row() -> Row {
    Row {
        columns: vec!["a".to_owned(), "b".to_owned(), "a".to_owned(), "c".to_owned()],
        values: vec![
            Some(number("1", SqlTypeFamily::SmallInt)),
            None,
            Some(number("3", SqlTypeFamily::SmallInt)),
        ],
    }
}

#[test]
fn cast_sets_the_family_and_keeps_the_magnitude() {
    assert_eq!(
        cast(SqlTypeFamily::SmallInt, number("32768", SqlTypeFamily::BigInt)),
        Ok(number("32768", SqlTypeFamily::SmallInt))
    );
    assert_eq!(
        cast(SqlTypeFamily::BigInt, number("-9223372036854775809", SqlTypeFamily::SmallInt)),
        Ok(number("-9223372036854775809", SqlTypeFamily::BigInt))
    );
}

#[test]
fn cast_reads_numbers_from_text_with_any_precision() {
    assert_eq!(
        cast(SqlTypeFamily::BigInt, text("-9223372036854775809")),
        Ok(number("-9223372036854775809", SqlTypeFamily::BigInt))
    );
    assert_eq!(cast(SqlTypeFamily::Integer, text("12")), Ok(number("12", SqlTypeFamily::Integer)));
}

#[test]
fn cast_of_text_that_is_no_number_fails() {
    assert_eq!(
        cast(SqlTypeFamily::SmallInt, text("str")),
        Err(QueryExecutionError::InvalidTextRepresentation {
            type_family: SqlTypeFamily::SmallInt,
            text: "str".to_owned()
        })
    );
}

#[test]
fn casts_between_the_kinds() {
    assert_eq!(cast(SqlTypeFamily::String, text("abc")), Ok(text("abc")));
    assert_eq!(cast(SqlTypeFamily::String, number("-1.50", SqlTypeFamily::BigInt)), Ok(text("-1.50")));
    assert_eq!(cast(SqlTypeFamily::String, TypedValue::Bool(true)), Ok(text("true")));
    assert_eq!(cast(SqlTypeFamily::Bool, TypedValue::Bool(false)), Ok(TypedValue::Bool(false)));
    assert_eq!(
        cast(SqlTypeFamily::Bool, text("true")),
        Err(QueryExecutionError::UndefinedUnaryOperation {
            operator: UnOperator::Cast(SqlTypeFamily::Bool),
            operand: SqlTypeFamily::String
        })
    );
    assert_eq!(
        cast(SqlTypeFamily::Bool, number("1", SqlTypeFamily::Integer)),
        Err(QueryExecutionError::UndefinedUnaryOperation {
            operator: UnOperator::Cast(SqlTypeFamily::Bool),
            operand: SqlTypeFamily::Integer
        })
    );
    assert_eq!(
        cast(SqlTypeFamily::Integer, TypedValue::Bool(true)),
        Err(QueryExecutionError::UndefinedUnaryOperation {
            operator: UnOperator::Cast(SqlTypeFamily::Integer),
            operand: SqlTypeFamily::Bool
        })
    );
}

#[test]
fn unary_operators() {
    assert_eq!(
        UnOperator::Minus.eval(number("5", SqlTypeFamily::Integer)),
        Ok(number("-5", SqlTypeFamily::Integer))
    );
    assert_eq!(UnOperator::Not.eval(TypedValue::Bool(true)), Ok(TypedValue::Bool(false)));
    assert_eq!(
        UnOperator::Minus.eval(text("5")),
        Err(QueryExecutionError::UndefinedUnaryOperation {
            operator: UnOperator::Minus,
            operand: SqlTypeFamily::String
        })
    );
    assert_eq!(
        UnOperator::Not.eval(number("1", SqlTypeFamily::SmallInt)),
        Err(QueryExecutionError::UndefinedUnaryOperation {
            operator: UnOperator::Not,
            operand: SqlTypeFamily::SmallInt
        })
    );
}

#[test]
fn binary_operators() {
    assert_eq!(
        BiOperator::Add.eval(number("32767", SqlTypeFamily::SmallInt), number("1", SqlTypeFamily::Integer)),
        Ok(number("32768", SqlTypeFamily::Integer))
    );
    assert_eq!(
        BiOperator::Sub.eval(number("1", SqlTypeFamily::BigInt), number("2.5", SqlTypeFamily::SmallInt)),
        Ok(number("-1.5", SqlTypeFamily::BigInt))
    );
    assert_eq!(
        BiOperator::And.eval(TypedValue::Bool(true), TypedValue::Bool(false)),
        Ok(TypedValue::Bool(false))
    );
    assert_eq!(
        BiOperator::Or.eval(TypedValue::Bool(true), TypedValue::Bool(false)),
        Ok(TypedValue::Bool(true))
    );
    assert_eq!(BiOperator::Concat.eval(text("ab"), text("cd")), Ok(text("abcd")));
}

#[test]
fn arithmetic_on_a_string_fails() {
    assert_eq!(
        BiOperator::Add.eval(text("1"), number("1", SqlTypeFamily::SmallInt)),
        Err(QueryExecutionError::UndefinedBinaryOperation {
            operator: BiOperator::Add,
            left: SqlTypeFamily::String,
            right: SqlTypeFamily::SmallInt
        })
    );
    assert_eq!(
        BiOperator::Concat.eval(text("1"), TypedValue::Bool(true)),
        Err(QueryExecutionError::UndefinedBinaryOperation {
            operator: BiOperator::Concat,
            left: SqlTypeFamily::String,
            right: SqlTypeFamily::Bool
        })
    );
    assert_eq!(
        BiOperator::And.eval(number("1", SqlTypeFamily::BigInt), TypedValue::Bool(true)),
        Err(QueryExecutionError::UndefinedBinaryOperation {
            operator: BiOperator::And,
            left: SqlTypeFamily::BigInt,
            right: SqlTypeFamily::Bool
        })
    );
}

#[test]
fn static_trees_hold_no_column_reference() {
    assert!(StaticTypedTree::new(constant(text("a"))).is_some());
    assert!(StaticTypedTree::new(column("a")).is_none());
    assert!(StaticTypedTree::new(unary(UnOperator::Not, column("a"))).is_none());
    assert!(StaticTypedTree::new(binary(BiOperator::Add, constant(text("a")), column("a"))).is_none());
    assert!(constant(text("a")).has_no_reference());
    assert!(!column("a").has_no_reference());
}

#[test]
fn well_formed_trees_tag_numbers_with_integer_families() {
    assert!(constant(number("1", SqlTypeFamily::SmallInt)).is_well_formed());
    assert!(!constant(number("1", SqlTypeFamily::String)).is_well_formed());
    assert!(column("a").is_well_formed());
    assert!(!binary(
        BiOperator::Add,
        constant(number("1", SqlTypeFamily::BigInt)),
        unary(UnOperator::Minus, constant(number("1", SqlTypeFamily::Bool)))
    )
    .is_well_formed());
}

#[test]
fn static_trees_evaluate_without_a_row() {
    let tree = StaticTypedTree::binary(
        BiOperator::Add,
        StaticTypedTree::unary(
            UnOperator::Cast(SqlTypeFamily::SmallInt),
            StaticTypedTree::constant(text("32767")),
        ),
        StaticTypedTree::unary(
            UnOperator::Minus,
            StaticTypedTree::constant(number("1", SqlTypeFamily::BigInt)),
        ),
    );
    assert_eq!(tree.eval(), Ok(number("32766", SqlTypeFamily::BigInt)));
    assert_eq!(tree.tree().eval(None), Ok(Some(number("32766", SqlTypeFamily::BigInt))));
}

#[test]
fn evaluation_ends_with_the_first_failure() {
    let tree = StaticTypedTree::binary(
        BiOperator::Add,
        StaticTypedTree::unary(UnOperator::Cast(SqlTypeFamily::SmallInt), StaticTypedTree::constant(text("x"))),
        StaticTypedTree::unary(UnOperator::Cast(SqlTypeFamily::Integer), StaticTypedTree::constant(text("y"))),
    );
    assert_eq!(
        tree.eval(),
        Err(QueryExecutionError::InvalidTextRepresentation {
            type_family: SqlTypeFamily::SmallInt,
            text: "x".to_owned()
        })
    );
}

#[test]
fn dynamic_trees_read_the_first_column_of_a_name() {
    let row = row();
    assert_eq!(
        DynamicTypedTree { tree: column("a") }.eval(&row),
        Ok(Some(number("1", SqlTypeFamily::SmallInt)))
    );
    assert_eq!(row.position(&"a".to_owned()), Some(0));
    assert_eq!(row.position(&"c".to_owned()), Some(3));
    assert_eq!(row.position(&"d".to_owned()), None);
}

#[test]
fn null_gives_null() {
    let row = row();
    assert_eq!(DynamicTypedTree { tree: column("b") }.eval(&row), Ok(None));
    let sum = binary(BiOperator::Add, column("a"), column("b"));
    assert_eq!(DynamicTypedTree { tree: sum }.eval(&row), Ok(None));
    let negated = unary(UnOperator::Minus, column("b"));
    assert_eq!(DynamicTypedTree { tree: negated }.eval(&row), Ok(None));
}

#[test]
fn columns_that_the_row_lacks_are_undefined() {
    let row = row();
    assert_eq!(
        DynamicTypedTree { tree: column("d") }.eval(&row),
        Err(QueryExecutionError::UndefinedColumn { name: "d".to_owned() })
    );
    assert_eq!(
        DynamicTypedTree { tree: column("c") }.eval(&row),
        Err(QueryExecutionError::UndefinedColumn { name: "c".to_owned() })
    );
    assert_eq!(
        column("a").eval(None),
        Err(QueryExecutionError::UndefinedColumn { name: "a".to_owned() })
    );
    let sum = binary(BiOperator::Add, column("b"), column("d"));
    assert_eq!(
        DynamicTypedTree { tree: sum }.eval(&row),
        Err(QueryExecutionError::UndefinedColumn { name: "d".to_owned() })
    );
}

#[test]
fn dynamic_trees_compute_with_columns() {
    let row = row();
    let tree = binary(
        BiOperator::Sub,
        column("a"),
        unary(UnOperator::Cast(SqlTypeFamily::BigInt), constant(text("10"))),
    );
    assert_eq!(DynamicTypedTree { tree }.eval(&row), Ok(Some(number("-9", SqlTypeFamily::BigInt))));
}

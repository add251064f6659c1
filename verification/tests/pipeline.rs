use data_manipulation::binary::{Binary, Datum};
use data_manipulation::decimal::Decimal;
use data_manipulation::query_plan::{
    assign_row, decode_row, evaluate_row, fill_nulls, project_row, validate_cell, validate_row,
    AssignmentEval, ConstraintValidator, DynamicExpressionEval, Flow, InMemoryTable, SqlTable,
    StaticExpressionEval, StaticValues, StoredValues, TableInPlan,
};
use data_manipulation::query_result::QueryExecutionError;
use data_manipulation::typed_queries::{
    do_stored_rows_fit, FullTableName, InsertQuery, TypedSelectQuery, UpdateQuery,
};
use data_manipulation::typed_tree::{
    BiOperator, DynamicTypedTree, Row, StaticTypedTree, TypedTree, UnOperator,
};
use data_manipulation::typed_values::TypedValue;
use data_manipulation::types::SqlTypeFamily;

fn number(text: &str, type_family: SqlTypeFamily) -> TypedValue {
    TypedValue::Num { value: Decimal::parse(text).unwrap(), type_family }
}

fn literal(text: &str, target: SqlTypeFamily) -> Option<StaticTypedTree> {
    Some(StaticTypedTree::unary(
        UnOperator::Cast(target),
        StaticTypedTree::constant(number(text, SqlTypeFamily::BigInt)),
    ))
}

fn string(text: &str, target: SqlTypeFamily) -> Option<StaticTypedTree> {
    Some(StaticTypedTree::unary(
        UnOperator::Cast(target),
        StaticTypedTree::constant(TypedValue::String(text.to_owned())),
    ))
}

fn column(name: &str) -> DynamicTypedTree {
    DynamicTypedTree { tree: TypedTree::ColumnReference(name.to_owned()) }
}

fn table_name() -> FullTableName {
    FullTableName { schema: "schema_name".to_owned(), table: "table_name".to_owned() }
}

fn int_table() -> Vec<(String, SqlTypeFamily)> {
    vec![("col".to_owned(), SqlTypeFamily::SmallInt)]
}

fn multiple_ints_table() -> Vec<(String, SqlTypeFamily)> {
    vec![
        ("column_si".to_owned(), SqlTypeFamily::SmallInt),
        ("column_i".to_owned(), SqlTypeFamily::Integer),
        ("column_bi".to_owned(), SqlTypeFamily::BigInt),
    ]
}

fn three_small_ints() -> Vec<(String, SqlTypeFamily)> {
    vec![
        ("column_1".to_owned(), SqlTypeFamily::SmallInt),
        ("column_2".to_owned(), SqlTypeFamily::SmallInt),
        ("column_3".to_owned(), SqlTypeFamily::SmallInt),
    ]
}

fn names(columns: &[(String, SqlTypeFamily)]) -> Vec<String> {
    columns.iter().map(|column| column.0.clone()).collect()
}

fn insert(
    values: Vec<Vec<Option<StaticTypedTree>>>,
    columns: Vec<(String, SqlTypeFamily)>,
    table: InMemoryTable,
) -> (Result<usize, QueryExecutionError>, InMemoryTable) {
    let query = InsertQuery { full_table_name: table_name(), values };
    assert!(query.fits(columns.len()));
    let mut plan = query.plan(columns, table);
    let result = plan.execute();
    (result, plan.into_table())
}

fn small_ints(rows: &[[&str; 3]]) -> Vec<Vec<Option<StaticTypedTree>>> {
    rows.iter()
        .map(|row| row.iter().map(|cell| literal(cell, SqlTypeFamily::SmallInt)).collect())
        .collect()
}

fn select(table: &InMemoryTable, columns: Vec<String>, items: Vec<DynamicTypedTree>) -> Vec<Vec<Option<TypedValue>>> {
    let query = TypedSelectQuery { full_table_name: table_name(), projection_items: items };
    let mut plan = query.plan(columns, table.scan().unwrap());
    let mut rows = vec![];
    while let Some(row) = plan.next_tuple().unwrap() {
        rows.push(row);
    }
    rows
}

fn small_int_row(cells: &[i64]) -> Vec<Option<TypedValue>> {
    cells
        .iter()
        .map(|cell| Some(TypedValue::Num { value: Decimal::from_i64(*cell), type_family: SqlTypeFamily::SmallInt }))
        .collect()
}

fn out_of_range(text: &str, type_family: SqlTypeFamily, column: &str, row_index: usize) -> QueryExecutionError {
    QueryExecutionError::OutOfRange {
        value: number(text, type_family),
        type_family,
        column_name: column.to_owned(),
        row_index,
    }
}

#[test]
fn insert_out_of_range() {
    let (result, table) =
        insert(vec![vec![literal("32768", SqlTypeFamily::SmallInt)]], int_table(), InMemoryTable::new());
    assert_eq!(result, Err(out_of_range("32768", SqlTypeFamily::SmallInt, "col", 1)));
    assert_eq!(result.unwrap_err().row_index(), Some(1));
    assert!(table.rows().is_empty());
}

#[test]
fn insert_type_mismatch() {
    let (result, table) =
        insert(vec![vec![string("str", SqlTypeFamily::SmallInt)]], int_table(), InMemoryTable::new());
    assert_eq!(
        result,
        Err(QueryExecutionError::InvalidTextRepresentation {
            type_family: SqlTypeFamily::SmallInt,
            text: "str".to_owned()
        })
    );
    assert!(table.rows().is_empty());
}

#[test]
fn insert_text_into_an_integer_column() {
    let values = vec![vec![Some(StaticTypedTree::constant(TypedValue::String("str".to_owned())))]];
    let (result, _) = insert(values, int_table(), InMemoryTable::new());
    assert_eq!(
        result,
        Err(QueryExecutionError::TypeMismatch {
            value: TypedValue::String("str".to_owned()),
            type_family: SqlTypeFamily::SmallInt,
            column_name: "col".to_owned(),
            row_index: 1
        })
    );
}

#[test]
fn insert_multiple_columns_multiple_row_violation() {
    let values = vec![
        vec![
            literal("-32769", SqlTypeFamily::SmallInt),
            literal("-2147483649", SqlTypeFamily::Integer),
            literal("100", SqlTypeFamily::BigInt),
        ],
        vec![
            literal("100", SqlTypeFamily::SmallInt),
            literal("-2147483649", SqlTypeFamily::Integer),
            literal("-9223372036854775809", SqlTypeFamily::BigInt),
        ],
    ];
    let (result, table) = insert(values, multiple_ints_table(), InMemoryTable::new());
    assert_eq!(result, Err(out_of_range("-32769", SqlTypeFamily::SmallInt, "column_si", 1)));
    assert!(table.rows().is_empty());
}

#[test]
fn insert_violation_in_the_second_row() {
    let values = vec![
        vec![
            literal("-32768", SqlTypeFamily::SmallInt),
            literal("-2147483648", SqlTypeFamily::Integer),
            literal("100", SqlTypeFamily::BigInt),
        ],
        vec![
            literal("100", SqlTypeFamily::SmallInt),
            literal("-2147483649", SqlTypeFamily::Integer),
            literal("-9223372036854775808", SqlTypeFamily::BigInt),
        ],
    ];
    let (result, table) = insert(values, multiple_ints_table(), InMemoryTable::new());
    assert_eq!(result, Err(out_of_range("-2147483649", SqlTypeFamily::Integer, "column_i", 2)));
    assert_eq!(
        table.rows()[..],
        [Binary::pack(&[Datum::Int16(-32768), Datum::Int32(-2147483648), Datum::Int64(100)])]
    );
}

#[test]
fn violation_in_the_third_row_of_five() {
    let values = small_ints(&[["1", "2", "3"], ["4", "5", "6"], ["7", "8", "40000"], ["50000", "1", "1"], ["1", "1", "1"]]);
    let (result, table) = insert(values, three_small_ints(), InMemoryTable::new());
    assert_eq!(result, Err(out_of_range("40000", SqlTypeFamily::SmallInt, "column_3", 3)));
    assert_eq!(table.rows().len(), 2);
}

#[test]
fn rows_after_a_failing_row_are_not_evaluated() {
    let values = vec![
        vec![literal("1", SqlTypeFamily::SmallInt)],
        vec![literal("32768", SqlTypeFamily::SmallInt)],
        vec![string("str", SqlTypeFamily::SmallInt)],
    ];
    let (result, table) = insert(values, int_table(), InMemoryTable::new());
    assert_eq!(result, Err(out_of_range("32768", SqlTypeFamily::SmallInt, "col", 2)));
    assert_eq!(table.rows().len(), 1);
}

#[test]
fn boundary_values_are_stored() {
    let values = vec![
        vec![
            literal("-32768", SqlTypeFamily::SmallInt),
            literal("-2147483648", SqlTypeFamily::Integer),
            literal("-9223372036854775808", SqlTypeFamily::BigInt),
        ],
        vec![
            literal("32767", SqlTypeFamily::SmallInt),
            literal("2147483647", SqlTypeFamily::Integer),
            literal("9223372036854775807", SqlTypeFamily::BigInt),
        ],
    ];
    let (result, table) = insert(values, multiple_ints_table(), InMemoryTable::new());
    assert_eq!(result, Ok(2));
    assert_eq!(
        table.rows()[0].unpack(),
        Some(vec![Datum::Int16(i16::MIN), Datum::Int32(i32::MIN), Datum::Int64(i64::MIN)])
    );
    assert_eq!(
        table.rows()[1].unpack(),
        Some(vec![Datum::Int16(i16::MAX), Datum::Int32(i32::MAX), Datum::Int64(i64::MAX)])
    );
}

#[test]
fn values_next_to_the_boundaries_are_out_of_range() {
    let cases = [
        ("32768", SqlTypeFamily::SmallInt),
        ("-32769", SqlTypeFamily::SmallInt),
        ("2147483648", SqlTypeFamily::Integer),
        ("-2147483649", SqlTypeFamily::Integer),
        ("9223372036854775808", SqlTypeFamily::BigInt),
        ("-9223372036854775809", SqlTypeFamily::BigInt),
    ];
    for (text, family) in cases {
        let columns = vec![("col".to_owned(), family)];
        let (result, _) = insert(vec![vec![literal(text, family)]], columns, InMemoryTable::new());
        assert_eq!(result, Err(out_of_range(text, family, "col", 1)));
    }
}

#[test]
fn select_different_integer_types() {
    let values = vec![
        vec![
            literal("1000", SqlTypeFamily::SmallInt),
            literal("2000000", SqlTypeFamily::Integer),
            literal("3000000000", SqlTypeFamily::BigInt),
        ],
        vec![
            literal("4000", SqlTypeFamily::SmallInt),
            literal("5000000", SqlTypeFamily::Integer),
            literal("6000000000", SqlTypeFamily::BigInt),
        ],
        vec![
            literal("7000", SqlTypeFamily::SmallInt),
            literal("8000000", SqlTypeFamily::Integer),
            literal("9000000000", SqlTypeFamily::BigInt),
        ],
    ];
    let (result, table) = insert(values, multiple_ints_table(), InMemoryTable::new());
    assert_eq!(result, Ok(3));
    assert_eq!(
        table.rows()[0].unpack(),
        Some(vec![Datum::Int16(1_000), Datum::Int32(2_000_000), Datum::Int64(3_000_000_000)])
    );
    assert_eq!(
        table.scan(),
        Some(vec![
            vec![
                Some(number("1000", SqlTypeFamily::SmallInt)),
                Some(number("2000000", SqlTypeFamily::Integer)),
                Some(number("3000000000", SqlTypeFamily::BigInt)),
            ],
            vec![
                Some(number("4000", SqlTypeFamily::SmallInt)),
                Some(number("5000000", SqlTypeFamily::Integer)),
                Some(number("6000000000", SqlTypeFamily::BigInt)),
            ],
            vec![
                Some(number("7000", SqlTypeFamily::SmallInt)),
                Some(number("8000000", SqlTypeFamily::Integer)),
                Some(number("9000000000", SqlTypeFamily::BigInt)),
            ],
        ])
    );
}

#[test]
fn select_first_and_last_columns_from_table_with_multiple_columns() {
    let values = small_ints(&[["1", "2", "3"], ["4", "5", "6"], ["7", "8", "9"]]);
    let (result, table) = insert(values, three_small_ints(), InMemoryTable::new());
    assert_eq!(result, Ok(3));
    let rows = select(&table, names(&three_small_ints()), vec![column("column_3"), column("column_1")]);
    assert_eq!(rows, vec![small_int_row(&[3, 1]), small_int_row(&[6, 4]), small_int_row(&[9, 7])]);
}

#[test]
fn select_not_all_columns() {
    let values = small_ints(&[["1", "4", "7"], ["2", "5", "8"], ["3", "6", "9"]]);
    let (result, table) = insert(values, three_small_ints(), InMemoryTable::new());
    assert_eq!(result, Ok(3));
    let rows = select(&table, names(&three_small_ints()), vec![column("column_3"), column("column_2")]);
    assert_eq!(rows, vec![small_int_row(&[7, 4]), small_int_row(&[8, 5]), small_int_row(&[9, 6])]);
}

#[test]
fn select_all_columns_reordered_from_table_with_multiple_columns() {
    let values = small_ints(&[["1", "2", "3"], ["4", "5", "6"], ["7", "8", "9"]]);
    let (_, table) = insert(values, three_small_ints(), InMemoryTable::new());
    let rows = select(
        &table,
        names(&three_small_ints()),
        vec![column("column_3"), column("column_1"), column("column_2")],
    );
    assert_eq!(rows, vec![small_int_row(&[3, 1, 2]), small_int_row(&[6, 4, 5]), small_int_row(&[9, 7, 8])]);
}

#[test]
fn select_with_column_name_duplication() {
    let values = small_ints(&[["1", "2", "3"], ["4", "5", "6"], ["7", "8", "9"]]);
    let (_, table) = insert(values, three_small_ints(), InMemoryTable::new());
    let rows = select(
        &table,
        names(&three_small_ints()),
        vec![column("column_3"), column("column_2"), column("column_1"), column("column_3"), column("column_2")],
    );
    assert_eq!(
        rows,
        vec![
            small_int_row(&[3, 2, 1, 3, 2]),
            small_int_row(&[6, 5, 4, 6, 5]),
            small_int_row(&[9, 8, 7, 9, 8]),
        ]
    );
}

#[test]
fn select_all_from_table_with_multiple_columns() {
    let values = small_ints(&[["123", "456", "789"]]);
    let (result, table) = insert(values, three_small_ints(), InMemoryTable::new());
    assert_eq!(result, Ok(1));
    let rows = select(
        &table,
        names(&three_small_ints()),
        vec![column("column_1"), column("column_2"), column("column_3")],
    );
    assert_eq!(rows, vec![small_int_row(&[123, 456, 789])]);
}

#[test]
fn select_non_existing_columns_from_table() {
    let (_, table) = insert(vec![vec![literal("1", SqlTypeFamily::SmallInt)]], int_table(), InMemoryTable::new());
    let query = TypedSelectQuery {
        full_table_name: table_name(),
        projection_items: vec![column("column_not_in_table1"), column("column_not_in_table2")],
    };
    let mut plan = query.plan(names(&int_table()), table.scan().unwrap());
    assert_eq!(
        plan.next_tuple(),
        Err(QueryExecutionError::UndefinedColumn { name: "column_not_in_table1".to_owned() })
    );
}

#[test]
fn select_different_character_strings_types() {
    let columns = vec![
        ("char_10".to_owned(), SqlTypeFamily::String),
        ("var_char_20".to_owned(), SqlTypeFamily::String),
    ];
    let values = vec![
        vec![string("1234567890", SqlTypeFamily::String), string("12345678901234567890", SqlTypeFamily::String)],
        vec![string("12345", SqlTypeFamily::String), string("1234567890", SqlTypeFamily::String)],
    ];
    let (result, table) = insert(values, columns.clone(), InMemoryTable::new());
    assert_eq!(result, Ok(2));
    let rows = select(&table, names(&columns), vec![column("char_10"), column("var_char_20")]);
    assert_eq!(
        rows,
        vec![
            vec![
                Some(TypedValue::String("1234567890".to_owned())),
                Some(TypedValue::String("12345678901234567890".to_owned()))
            ],
            vec![
                Some(TypedValue::String("12345".to_owned())),
                Some(TypedValue::String("1234567890".to_owned()))
            ],
        ]
    );
}

#[test]
fn strings_longer_than_declared_are_stored() {
    let columns = vec![("col".to_owned(), SqlTypeFamily::String)];
    let values = vec![vec![string("123457890", SqlTypeFamily::String)]];
    let (result, table) = insert(values, columns, InMemoryTable::new());
    assert_eq!(result, Ok(1));
    assert_eq!(table.rows()[0].unpack(), Some(vec![Datum::String("123457890".to_owned())]));
}

fn assign(text: &str, family: SqlTypeFamily) -> DynamicTypedTree {
    DynamicTypedTree {
        tree: TypedTree::UnaryOp {
            op: UnOperator::Cast(family),
            item: Box::new(TypedTree::Constant(number(text, SqlTypeFamily::BigInt))),
        },
    }
}

fn update(
    column_names: Vec<String>,
    assignments: Vec<DynamicTypedTree>,
    columns: Vec<(String, SqlTypeFamily)>,
    table: InMemoryTable,
) -> (Result<usize, QueryExecutionError>, InMemoryTable) {
    let query = UpdateQuery { full_table_name: table_name(), column_names, assignments };
    assert!(query.is_fit());
    let stored = table.scan().unwrap();
    assert!(do_stored_rows_fit(&stored, columns.len()));
    let mut plan = query.plan(columns, stored, table);
    let result = plan.rewrite();
    (result, plan.into_table())
}

#[test]
fn update_out_of_range() {
    let (result, table) =
        insert(vec![vec![literal("32767", SqlTypeFamily::SmallInt)]], int_table(), InMemoryTable::new());
    assert_eq!(result, Ok(1));
    let (result, table) =
        update(vec!["col".to_owned()], vec![assign("32768", SqlTypeFamily::SmallInt)], int_table(), table);
    assert_eq!(result, Err(out_of_range("32768", SqlTypeFamily::SmallInt, "col", 1)));
    assert_eq!(table.scan(), Some(vec![small_int_row(&[32767])]));
}

#[test]
fn update_type_mismatch() {
    let (_, table) =
        insert(vec![vec![literal("32767", SqlTypeFamily::SmallInt)]], int_table(), InMemoryTable::new());
    let assignment = DynamicTypedTree {
        tree: TypedTree::UnaryOp {
            op: UnOperator::Cast(SqlTypeFamily::SmallInt),
            item: Box::new(TypedTree::Constant(TypedValue::String("str".to_owned()))),
        },
    };
    let (result, _) = update(vec!["col".to_owned()], vec![assignment], int_table(), table);
    assert_eq!(
        result,
        Err(QueryExecutionError::InvalidTextRepresentation {
            type_family: SqlTypeFamily::SmallInt,
            text: "str".to_owned()
        })
    );
}

#[test]
fn update_multiple_columns_violation() {
    let values = vec![
        vec![
            literal("100", SqlTypeFamily::SmallInt),
            literal("100", SqlTypeFamily::Integer),
            literal("100", SqlTypeFamily::BigInt),
        ],
        vec![
            literal("100", SqlTypeFamily::SmallInt),
            literal("100", SqlTypeFamily::Integer),
            literal("100", SqlTypeFamily::BigInt),
        ],
    ];
    let (result, table) = insert(values, multiple_ints_table(), InMemoryTable::new());
    assert_eq!(result, Ok(2));
    let (result, _) = update(
        names(&multiple_ints_table()),
        vec![
            assign("-32769", SqlTypeFamily::SmallInt),
            assign("-2147483649", SqlTypeFamily::Integer),
            assign("100", SqlTypeFamily::BigInt),
        ],
        multiple_ints_table(),
        table,
    );
    assert_eq!(result, Err(out_of_range("-32769", SqlTypeFamily::SmallInt, "column_si", 1)));
}

#[test]
fn update_rewrites_the_rows_in_place() {
    let values = small_ints(&[["1", "2", "3"], ["4", "5", "6"]]);
    let (_, table) = insert(values, three_small_ints(), InMemoryTable::new());
    let sum = DynamicTypedTree {
        tree: TypedTree::BinaryOp {
            op: BiOperator::Add,
            left: Box::new(TypedTree::ColumnReference("column_1".to_owned())),
            right: Box::new(TypedTree::ColumnReference("column_3".to_owned())),
        },
    };
    let (result, table) = update(
        vec!["column_2".to_owned(), "column_1".to_owned()],
        vec![sum, assign("0", SqlTypeFamily::SmallInt)],
        three_small_ints(),
        table,
    );
    assert_eq!(result, Ok(2));
    assert_eq!(table.scan(), Some(vec![small_int_row(&[0, 4, 3]), small_int_row(&[0, 10, 6])]));
}

#[test]
fn update_violation_in_the_second_row() {
    let values = vec![
        vec![literal("1", SqlTypeFamily::SmallInt)],
        vec![literal("2", SqlTypeFamily::SmallInt)],
        vec![literal("0", SqlTypeFamily::SmallInt)],
    ];
    let (_, table) = insert(values, int_table(), InMemoryTable::new());
    let grown = DynamicTypedTree {
        tree: TypedTree::BinaryOp {
            op: BiOperator::Add,
            left: Box::new(TypedTree::ColumnReference("col".to_owned())),
            right: Box::new(TypedTree::Constant(number("32766", SqlTypeFamily::SmallInt))),
        },
    };
    let (result, table) = update(vec!["col".to_owned()], vec![grown], int_table(), table);
    assert_eq!(result, Err(out_of_range("32768", SqlTypeFamily::SmallInt, "col", 2)));
    assert_eq!(
        table.scan(),
        Some(vec![small_int_row(&[32767]), small_int_row(&[2]), small_int_row(&[0])])
    );
}

#[test]
fn update_of_a_column_that_the_table_lacks_fails() {
    let (_, table) =
        insert(vec![vec![literal("1", SqlTypeFamily::SmallInt)]], int_table(), InMemoryTable::new());
    let (result, _) =
        update(vec!["other".to_owned()], vec![assign("1", SqlTypeFamily::SmallInt)], int_table(), table);
    assert_eq!(result, Err(QueryExecutionError::UndefinedColumn { name: "other".to_owned() }));
}

#[test]
fn assignments_are_evaluated_against_the_stored_row() {
    let row = Row { columns: vec!["a".to_owned(), "b".to_owned()], values: small_int_row(&[1, 2]) };
    let swap = vec![column("b"), column("a")];
    assert_eq!(
        assign_row(&vec!["a".to_owned(), "b".to_owned()], &swap, &row),
        Ok(small_int_row(&[2, 1]))
    );
    let stored = StoredValues::from(vec![small_int_row(&[1, 2]), small_int_row(&[3, 4])]);
    let mut stage = AssignmentEval::new(
        stored,
        vec!["a".to_owned(), "b".to_owned()],
        vec!["b".to_owned()],
        vec![column("a")],
    );
    assert_eq!(stage.next_tuple(), Ok(Some(small_int_row(&[1, 1]))));
    assert_eq!(stage.next_tuple(), Ok(Some(small_int_row(&[3, 3]))));
    assert_eq!(stage.next_tuple(), Ok(None));
}

#[test]
fn absent_cells_pass_and_are_stored_as_the_null_marker() {
    let values = vec![vec![None, literal("5", SqlTypeFamily::Integer), None]];
    let (result, table) = insert(values, multiple_ints_table(), InMemoryTable::new());
    assert_eq!(result, Ok(1));
    assert_eq!(table.rows()[0].to_bytes(), &vec![0, 4, 5, 0, 0, 0, 0]);
    assert_eq!(table.scan(), Some(vec![vec![None, Some(number("5", SqlTypeFamily::Integer)), None]]));
    for family in [SqlTypeFamily::Bool, SqlTypeFamily::String, SqlTypeFamily::SmallInt] {
        assert_eq!(validate_cell(&None, &("col".to_owned(), family), 7), Ok(None));
    }
    assert_eq!(fill_nulls(vec![None, Some(Datum::True)]), vec![Datum::Null, Datum::True]);
}

#[test]
fn numbers_are_stored_at_the_width_of_their_family() {
    let columns = multiple_ints_table();
    let row = vec![
        Some(number("7", SqlTypeFamily::BigInt)),
        Some(number("7", SqlTypeFamily::SmallInt)),
        Some(number("7", SqlTypeFamily::Integer)),
    ];
    assert_eq!(
        validate_row(&row, &columns, 1),
        Ok(vec![Some(Datum::Int64(7)), Some(Datum::Int16(7)), Some(Datum::Int32(7))])
    );
    for cell in &row {
        let value = cell.as_ref().unwrap();
        assert_eq!(
            validate_cell(cell, &("column_bi".to_owned(), SqlTypeFamily::BigInt), 1),
            Ok(Some(value.convert()))
        );
    }
    assert_eq!(
        validate_cell(
            &Some(number("5", SqlTypeFamily::BigInt)),
            &("col".to_owned(), SqlTypeFamily::SmallInt),
            1
        ),
        Ok(Some(Datum::Int64(5)))
    );
}

#[test]
fn the_range_of_the_column_alone_decides() {
    let columns = multiple_ints_table();
    let row = vec![None, Some(number("100000", SqlTypeFamily::SmallInt)), None];
    assert_eq!(validate_row(&row, &columns, 3), Ok(vec![None, Some(Datum::Int32(100000)), None]));
    assert_eq!(
        validate_cell(
            &Some(number("40000", SqlTypeFamily::SmallInt)),
            &("col".to_owned(), SqlTypeFamily::Integer),
            2
        ),
        Ok(Some(Datum::Int32(40000)))
    );
    assert_eq!(
        validate_cell(
            &Some(number("-3000000000", SqlTypeFamily::Integer)),
            &("col".to_owned(), SqlTypeFamily::BigInt),
            2
        ),
        Ok(Some(Datum::Int64(-3000000000)))
    );
    assert_eq!(
        validate_cell(
            &Some(number("100000", SqlTypeFamily::BigInt)),
            &("col".to_owned(), SqlTypeFamily::SmallInt),
            2
        ),
        Err(QueryExecutionError::OutOfRange {
            value: number("100000", SqlTypeFamily::BigInt),
            type_family: SqlTypeFamily::SmallInt,
            column_name: "col".to_owned(),
            row_index: 2
        })
    );
    assert_eq!(
        validate_cell(
            &Some(number("32767", SqlTypeFamily::SmallInt)),
            &("col".to_owned(), SqlTypeFamily::Integer),
            2
        ),
        Ok(Some(Datum::Int16(32767)))
    );
    let families = [SqlTypeFamily::SmallInt, SqlTypeFamily::Integer, SqlTypeFamily::BigInt];
    for tag in families {
        for family in families {
            let (_, max) = family.range().unwrap();
            let column = ("col".to_owned(), family);
            let inside = Some(TypedValue::Num { value: Decimal::from_i64(max), type_family: tag });
            assert!(validate_cell(&inside, &column, 1).is_ok());
            if max < i64::MAX {
                let outside =
                    Some(TypedValue::Num { value: Decimal::from_i64(max + 1), type_family: tag });
                assert!(validate_cell(&outside, &column, 1).is_err());
            }
        }
    }
}

#[test]
fn validation_reports_the_first_failing_cell() {
    let columns = multiple_ints_table();
    let row = vec![
        Some(number("7", SqlTypeFamily::SmallInt)),
        Some(TypedValue::Bool(true)),
        Some(number("9223372036854775808", SqlTypeFamily::BigInt)),
    ];
    assert_eq!(
        validate_row(&row, &columns, 4),
        Err(QueryExecutionError::TypeMismatch {
            value: TypedValue::Bool(true),
            type_family: SqlTypeFamily::Integer,
            column_name: "column_i".to_owned(),
            row_index: 4
        })
    );
    assert_eq!(
        validate_cell(&Some(number("1", SqlTypeFamily::BigInt)), &("col".to_owned(), SqlTypeFamily::String), 2),
        Err(QueryExecutionError::TypeMismatch {
            value: number("1", SqlTypeFamily::BigInt),
            type_family: SqlTypeFamily::String,
            column_name: "col".to_owned(),
            row_index: 2
        })
    );
    assert_eq!(
        validate_cell(&Some(TypedValue::String("a".to_owned())), &("col".to_owned(), SqlTypeFamily::Bool), 2),
        Err(QueryExecutionError::TypeMismatch {
            value: TypedValue::String("a".to_owned()),
            type_family: SqlTypeFamily::Bool,
            column_name: "col".to_owned(),
            row_index: 2
        })
    );
    assert_eq!(
        validate_cell(&Some(TypedValue::Bool(true)), &("col".to_owned(), SqlTypeFamily::Bool), 2),
        Ok(Some(Datum::True))
    );
}

#[test]
fn stages_hand_out_rows_in_order_and_then_end() {
    let rows = vec![
        vec![literal("1", SqlTypeFamily::SmallInt), None],
        vec![None, string("x", SqlTypeFamily::String)],
    ];
    let mut source = StaticValues::from(rows);
    let first = source.next_tuple().unwrap().unwrap();
    assert_eq!(first.len(), 2);
    assert_eq!(
        evaluate_row(&first),
        Ok(vec![Some(number("1", SqlTypeFamily::SmallInt)), None])
    );
    let second = source.next_tuple().unwrap().unwrap();
    assert_eq!(evaluate_row(&second), Ok(vec![None, Some(TypedValue::String("x".to_owned()))]));
    assert_eq!(source.next_tuple(), Ok(None));
    assert_eq!(source.next_tuple(), Ok(None));
}

#[test]
fn stages_compose() {
    let rows = vec![
        vec![literal("1", SqlTypeFamily::SmallInt)],
        vec![None],
        vec![literal("3", SqlTypeFamily::SmallInt)],
    ];
    let evaluated = StaticExpressionEval::new(StaticValues::from(rows));
    let mut validated = ConstraintValidator::new(evaluated, int_table());
    assert_eq!(validated.next_tuple(), Ok(Some(vec![Some(Datum::Int16(1))])));
    assert_eq!(validated.next_tuple(), Ok(Some(vec![None])));
    assert_eq!(validated.next_tuple(), Ok(Some(vec![Some(Datum::Int16(3))])));
    assert_eq!(validated.next_tuple(), Ok(None));

    let stored = StoredValues::from(vec![small_int_row(&[1, 2]), small_int_row(&[3, 4])]);
    let mut projected = DynamicExpressionEval::new(
        stored,
        vec!["a".to_owned(), "b".to_owned()],
        vec![column("b")],
    );
    assert_eq!(projected.next_tuple(), Ok(Some(small_int_row(&[2]))));
    assert_eq!(projected.next_tuple(), Ok(Some(small_int_row(&[4]))));
    assert_eq!(projected.next_tuple(), Ok(None));
}

#[test]
fn writer_counts_and_appends() {
    let mut table = InMemoryTable::new();
    table.write(Binary::pack(&[Datum::Int16(9)]));
    table.write(Binary::pack(&[Datum::Int16(8)]));
    table.rewrite(0, Binary::pack(&[Datum::Int16(7)]));
    table.rewrite(1, Binary::pack(&[Datum::Int16(9)]));
    table.rewrite(0, Binary::pack(&[Datum::Int16(9)]));
    let rows = vec![vec![literal("1", SqlTypeFamily::SmallInt)], vec![literal("2", SqlTypeFamily::SmallInt)]];
    let validated = ConstraintValidator::new(StaticExpressionEval::new(StaticValues::from(rows)), int_table());
    let mut plan = TableInPlan::new(validated, table);
    assert_eq!(plan.execute(), Ok(2));
    let table = plan.into_table();
    assert_eq!(
        table.rows()[..],
        [
            Binary::pack(&[Datum::Int16(9)]),
            Binary::pack(&[Datum::Int16(9)]),
            Binary::pack(&[Datum::Int16(1)]),
            Binary::pack(&[Datum::Int16(2)])
        ]
    );
}

#[test]
fn insert_of_no_rows_writes_nothing() {
    let (result, table) = insert(vec![], int_table(), InMemoryTable::new());
    assert_eq!(result, Ok(0));
    assert!(table.rows().is_empty());
}

#[test]
fn rows_that_do_not_fit_the_columns_are_told_apart() {
    let query = InsertQuery {
        full_table_name: table_name(),
        values: vec![vec![literal("1", SqlTypeFamily::SmallInt), None]],
    };
    assert!(query.fits(2));
    assert!(!query.fits(1));
    let query = InsertQuery {
        full_table_name: table_name(),
        values: vec![vec![Some(StaticTypedTree::constant(number("1", SqlTypeFamily::String)))]],
    };
    assert!(!query.fits(1));
    assert!(!do_stored_rows_fit(&vec![vec![None, Some(number("1", SqlTypeFamily::Bool))]], 2));
    assert!(do_stored_rows_fit(&vec![vec![None, Some(number("1", SqlTypeFamily::BigInt))]], 2));
    assert!(!do_stored_rows_fit(&vec![vec![None, Some(number("1", SqlTypeFamily::BigInt))]], 3));
}

#[test]
fn stored_rows_decode_to_values() {
    let packed = Binary::pack(&[Datum::Null, Datum::Int64(-1), Datum::String("a".to_owned()), Datum::False]);
    assert_eq!(
        decode_row(&packed),
        Some(vec![
            None,
            Some(number("-1", SqlTypeFamily::BigInt)),
            Some(TypedValue::String("a".to_owned())),
            Some(TypedValue::Bool(false)),
        ])
    );
    assert_eq!(decode_row(&Binary::with_data(vec![9])), None);
    let mut table = InMemoryTable::new();
    table.write(Binary::with_data(vec![9]));
    assert_eq!(table.scan(), None);
}

#[test]
fn projection_evaluates_each_tree_against_the_row() {
    let row = Row { columns: vec!["a".to_owned(), "b".to_owned()], values: small_int_row(&[1, 2]) };
    assert_eq!(project_row(&vec![column("b"), column("a"), column("b")], &row), Ok(small_int_row(&[2, 1, 2])));
    assert_eq!(
        project_row(&vec![column("b"), column("x"), column("y")], &row),
        Err(QueryExecutionError::UndefinedColumn { name: "x".to_owned() })
    );
}

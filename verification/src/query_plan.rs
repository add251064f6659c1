//! The lazy pipeline that executes a statement.
//!
//! A stage hands out one row at a time, pulled from the stage before it: a
//! source of rows, an evaluator that folds trees to values, a validator that
//! holds values against the types of their columns and turns them into
//! storage cells, and a writer that packs the rows and hands them to a table.

pub mod evaluation;
pub mod flow;
pub mod table;
pub mod validation;

pub use evaluation::{
    assign_row, evaluate_row, project_row, AssignmentEval, DynamicExpressionEval,
    StaticExpressionEval,
};
pub use flow::{Flow, StaticValues, StoredValues};
pub use table::{decode_row, fill_nulls, InMemoryTable, SqlTable, TableInPlan};
pub use validation::{validate_cell, validate_row, ConstraintValidator};

//! The failures that end the execution of a statement.

use crate::typed_tree::{BiOperator, UnOperator};
use crate::typed_values::{TypedContent, TypedValue};
use crate::types::SqlTypeFamily;
use vstd::prelude::*;

verus! {

/// Why a statement could not be executed. Rows are numbered from one, in
/// the order of the statement.
#[derive(Debug, PartialEq)]
#[allow(inconsistent_fields)]
pub enum QueryExecutionError {
    /// The family of a value is not compatible with that of its column.
    TypeMismatch { value: TypedValue, type_family: SqlTypeFamily, column_name: String, row_index: usize },
    /// A number does not fit the range of the family of its column.
    OutOfRange { value: TypedValue, type_family: SqlTypeFamily, column_name: String, row_index: usize },
    /// A text cannot be read as a value of the family it is cast to. For a
    /// number, that is a text that is not ASCII, that is longer than
    /// [`crate::decimal::TEXT_LIMIT`], that the parser of decimals refuses,
    /// whose exponent part, counted from its mark, has more than
    /// [`crate::decimal::EXPONENT_LIMIT`] characters, or whose scale is
    /// beyond [`crate::decimal::SCALE_LIMIT`] in magnitude.
    InvalidTextRepresentation { type_family: SqlTypeFamily, text: String },
    /// A unary operator is applied to an operand of a kind it cannot take.
    UndefinedUnaryOperation { operator: UnOperator, operand: SqlTypeFamily },
    /// A binary operator is applied to operands of kinds it cannot combine.
    UndefinedBinaryOperation { operator: BiOperator, left: SqlTypeFamily, right: SqlTypeFamily },
    /// A tree refers to a column that the current row does not have.
    UndefinedColumn { name: String },
}

/// The mathematical content of a failure.
#[allow(inconsistent_fields)]
pub enum ErrorContent {
    TypeMismatch { value: TypedContent, type_family: SqlTypeFamily, column_name: Seq<char>, row_index: nat },
    OutOfRange { value: TypedContent, type_family: SqlTypeFamily, column_name: Seq<char>, row_index: nat },
    InvalidTextRepresentation { type_family: SqlTypeFamily, text: Seq<char> },
    UndefinedUnaryOperation { operator: UnOperator, operand: SqlTypeFamily },
    UndefinedBinaryOperation { operator: BiOperator, left: SqlTypeFamily, right: SqlTypeFamily },
    UndefinedColumn { name: Seq<char> },
}

impl View for QueryExecutionError {
    type V = ErrorContent;

    open spec fn view(&self) -> ErrorContent {
        match self {
            QueryExecutionError::TypeMismatch {
                value,
                type_family,
                column_name,
                row_index,
            } => ErrorContent::TypeMismatch {
                value: value@,
                type_family: *type_family,
                column_name: column_name@,
                row_index: *row_index as nat,
            },
            QueryExecutionError::OutOfRange {
                value,
                type_family,
                column_name,
                row_index,
            } => ErrorContent::OutOfRange {
                value: value@,
                type_family: *type_family,
                column_name: column_name@,
                row_index: *row_index as nat,
            },
            QueryExecutionError::InvalidTextRepresentation {
                type_family,
                text,
            } => ErrorContent::InvalidTextRepresentation { type_family: *type_family, text: text@ },
            QueryExecutionError::UndefinedUnaryOperation {
                operator,
                operand,
            } => ErrorContent::UndefinedUnaryOperation { operator: *operator, operand: *operand },
            QueryExecutionError::UndefinedBinaryOperation {
                operator,
                left,
                right,
            } => ErrorContent::UndefinedBinaryOperation {
                operator: *operator,
                left: *left,
                right: *right,
            },
            QueryExecutionError::UndefinedColumn { name } => ErrorContent::UndefinedColumn {
                name: name@,
            },
        }
    }
}

impl DeepView for QueryExecutionError {
    type V = ErrorContent;

    open spec fn deep_view(&self) -> ErrorContent {
        self@
    }
}

/// The mathematical content of the outcome of a step that may fail.
pub open spec fn outcome<T: DeepView>(r: Result<T, QueryExecutionError>) -> Result<
    T::V,
    ErrorContent,
> {
    match r {
        Ok(value) => Ok(value.deep_view()),
        Err(error) => Err(error@),
    }
}

impl ErrorContent {
    /// The row that the failure is located in, for the failures that name
    /// one.
    pub open spec fn row(self) -> Option<nat> {
        match self {
            ErrorContent::TypeMismatch { row_index, .. } => Some(row_index),
            ErrorContent::OutOfRange { row_index, .. } => Some(row_index),
            _ => None,
        }
    }
}

impl QueryExecutionError {
    /// The row that the failure is located in, for the failures that name
    /// one.
    pub fn row_index(&self) -> (r: Option<usize>)
        ensures
            r is Some <==> self@.row() is Some,
            r matches Some(index) ==> self@.row() == Some(index as nat),
    {
        match self {
            QueryExecutionError::TypeMismatch { row_index, .. } => Some(*row_index),
            QueryExecutionError::OutOfRange { row_index, .. } => Some(*row_index),
            _ => None,
        }
    }
}

} // verus!

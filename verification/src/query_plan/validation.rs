//! The validator: the stage that holds each value of a row against the
//! family of its column, enforces the range of numbers, and turns the
//! values into storage cells.

use crate::binary::{Datum, DatumValue, TAG_NULL};
use crate::decimal::{lemma_within_wider, DecimalValue};
use crate::query_plan::flow::{
    lemma_mapped_rows_len, lemma_mapped_until_failure, mapped_failure, mapped_rows, rows_after,
    Flow,
};
use crate::query_plan::table::stored_cell;
use crate::query_result::{outcome, ErrorContent, QueryExecutionError};
use crate::typed_values::{number_cell, well_tagged_values, TypedContent, TypedValue};
use crate::types::{lemma_bounds_follow_width, SqlTypeFamily};
use vstd::arithmetic::power2::pow2;
use vstd::prelude::*;

verus! {

/// The storage cell of a value that the validator lets pass into a column:
/// its own storage cell, a number at the width of the family it is tagged
/// with, wherever it has one; a number that the family it is tagged with
/// does not hold is stored at the width of the column, whose range holds it.
pub open spec fn accepted_cell(value: TypedContent, column_family: SqlTypeFamily) -> DatumValue {
    match value {
        TypedContent::Num { value: number, type_family } => if number.within(
            type_family.lower_bound(),
            type_family.upper_bound(),
        ) {
            value.cell()
        } else {
            (TypedContent::Num { value: number, type_family: column_family }).cell()
        },
        _ => value.cell(),
    }
}

/// What the validator makes of a cell of the row with the given number. An
/// absent cell passes as it is. A value whose family is not compatible with
/// that of the column is a type mismatch. A number passes exactly when the
/// range of the column's family holds it, whatever integer family it is
/// tagged with; any other number is out of range. A value that passes
/// becomes a storage cell, as [`accepted_cell`] says.
pub open spec fn checked_cell(
    cell: Option<TypedContent>,
    column: (Seq<char>, SqlTypeFamily),
    row_index: nat,
) -> Result<Option<DatumValue>, ErrorContent> {
    match cell {
        None => Ok(None),
        Some(value) => if value.family().widest(column.1) is None {
            Err(
                ErrorContent::TypeMismatch {
                    value,
                    type_family: column.1,
                    column_name: column.0,
                    row_index,
                },
            )
        } else if value matches TypedContent::Num { value: number, .. } && !number.within(
            column.1.lower_bound(),
            column.1.upper_bound(),
        ) {
            Err(
                ErrorContent::OutOfRange {
                    value,
                    type_family: column.1,
                    column_name: column.0,
                    row_index,
                },
            )
        } else {
            Ok(Some(accepted_cell(value, column.1)))
        },
    }
}

/// What the validator makes of a row: its cells checked from left to right
/// against the columns at their positions, up to the first that fails.
pub open spec fn checked_row(
    row: Seq<Option<TypedContent>>,
    columns: Seq<(Seq<char>, SqlTypeFamily)>,
    row_index: nat,
) -> Result<Seq<Option<DatumValue>>, ErrorContent>
    decreases row.len(),
{
    if row.len() == 0 {
        Ok(Seq::<Option<DatumValue>>::empty())
    } else {
        match checked_row(row.drop_last(), columns, row_index) {
            Err(error) => Err(error),
            Ok(cells) => match checked_cell(row.last(), columns[row.len() - 1], row_index) {
                Ok(cell) => Ok(cells.push(cell)),
                Err(error) => Err(error),
            },
        }
    }
}

/// The step of the validator for the given columns: a row of values becomes
/// a row of storage cells.
pub open spec fn validation(columns: Seq<(Seq<char>, SqlTypeFamily)>) -> spec_fn(
    Seq<Option<TypedContent>>,
    nat,
) -> Result<Seq<Option<DatumValue>>, ErrorContent> {
    |row: Seq<Option<TypedContent>>, number: nat| checked_row(row, columns, number)
}

/// Whether a row is one that the validator can take: it has one cell for
/// each column, and its numbers are tagged with integer families.
pub open spec fn fits_columns(
    row: Seq<Option<TypedContent>>,
    columns: Seq<(Seq<char>, SqlTypeFamily)>,
) -> bool {
    &&& row.len() == columns.len()
    &&& well_tagged_values(row)
}

/// A row whose front fails the checks fails in the same way.
pub proof fn lemma_checked_row_fails(
    row: Seq<Option<TypedContent>>,
    columns: Seq<(Seq<char>, SqlTypeFamily)>,
    row_index: nat,
    front: int,
)
    requires
        0 <= front <= row.len(),
        checked_row(row.take(front), columns, row_index) is Err,
    ensures
        checked_row(row, columns, row_index) == checked_row(row.take(front), columns, row_index),
    decreases row.len(),
{
    if front < row.len() {
        assert(row.drop_last().take(front) =~= row.take(front));
        lemma_checked_row_fails(row.drop_last(), columns, row_index, front);
    } else {
        assert(row.take(front) =~= row);
    }
}

/// Every failure of the validator names the row that it is about.
pub proof fn lemma_checked_row_failure_names_row(
    row: Seq<Option<TypedContent>>,
    columns: Seq<(Seq<char>, SqlTypeFamily)>,
    row_index: nat,
)
    ensures
        checked_row(row, columns, row_index) matches Err(error) ==> error.row() == Some(row_index),
    decreases row.len(),
{
    if row.len() > 0 {
        lemma_checked_row_failure_names_row(row.drop_last(), columns, row_index);
    }
}

/// A number tagged with any integer family passes the check against a
/// column of an integer family of width `w` exactly when it lies between
/// `-2^(w-1)` and `2^(w-1) - 1`, both included; any other number is out of
/// range for the column's family, in that column and row.
pub proof fn lemma_number_passes_within_width(
    number: DecimalValue,
    tag: SqlTypeFamily,
    column: (Seq<char>, SqlTypeFamily),
    row_index: nat,
)
    requires
        tag.is_integer(),
        column.1.is_integer(),
    ensures
        ({
            let value = TypedContent::Num { value: number, type_family: tag };
            let half = pow2((column.1.width() - 1) as nat) as int;
            let checked = checked_cell(Some(value), column, row_index);
            &&& half == -column.1.lower_bound() == column.1.upper_bound() + 1
            &&& checked is Ok <==> number.within(-half, half - 1)
            &&& number.within(-half, half - 1) ==> checked == Ok::<Option<DatumValue>, ErrorContent>(
                Some(accepted_cell(value, column.1)),
            )
            &&& !number.within(-half, half - 1) ==> checked == Err::<
                Option<DatumValue>,
                ErrorContent,
            >(
                ErrorContent::OutOfRange {
                    value,
                    type_family: column.1,
                    column_name: column.0,
                    row_index,
                },
            )
        }),
{
    lemma_bounds_follow_width(column.1);
}

/// A string passes the check against a column of strings, and a boolean
/// against a column of booleans, whatever they hold.
pub proof fn lemma_same_kind_passes(
    value: TypedContent,
    column: (Seq<char>, SqlTypeFamily),
    row_index: nat,
)
    requires
        !(value is Num),
        value.family() == column.1,
    ensures
        checked_cell(Some(value), column, row_index) == Ok::<Option<DatumValue>, ErrorContent>(
            Some(value.cell()),
        ),
{
}

/// The cell of a value that passes the check. A value that has a storage
/// cell of its own is stored as that cell; so is every number whose family
/// is at least as wide as that of its column. A number that the family it
/// is tagged with does not hold is stored as the number itself at the
/// width of the column.
pub proof fn lemma_checked_cell_stores_the_value(
    value: TypedContent,
    column: (Seq<char>, SqlTypeFamily),
    row_index: nat,
)
    requires
        value.well_tagged(),
        checked_cell(Some(value), column, row_index) is Ok,
    ensures
        checked_cell(Some(value), column, row_index)->Ok_0 is Some,
        value.storable() ==> checked_cell(Some(value), column, row_index)->Ok_0 == Some(
            value.cell(),
        ),
        value.family().width() >= column.1.width() ==> value.storable(),
        value matches TypedContent::Num { value: number, .. } ==> column.1.is_integer() && (
        TypedContent::Num { value: number, type_family: column.1 }).storable() && (
        !value.storable() ==> checked_cell(Some(value), column, row_index)->Ok_0 == Some(
            (TypedContent::Num { value: number, type_family: column.1 }).cell(),
        )),
{
    if let TypedContent::Num { value: number, type_family } = value {
        if type_family.width() >= column.1.width() {
            lemma_within_wider(
                number,
                column.1.lower_bound(),
                column.1.upper_bound(),
                type_family.lower_bound(),
                type_family.upper_bound(),
            );
        }
    }
}

/// An absent cell passes the check against any column, in any row, and is
/// stored as the null marker, which is encoded as its tag alone.
pub proof fn lemma_absent_cell_passes(column: (Seq<char>, SqlTypeFamily), row_index: nat)
    ensures
        checked_cell(None, column, row_index) == Ok::<Option<DatumValue>, ErrorContent>(None),
        stored_cell(None) == DatumValue::Null,
        stored_cell(None).encoding() == seq![TAG_NULL],
{
}

/// Where the rows before row `k` of a statement pass the checks and row `k`
/// does not, the validator hands out the `k - 1` rows before it and then
/// fails with the failure of row `k`, which names row `k`, whatever rows
/// follow it.
pub proof fn lemma_violation_names_its_row(
    rows: Seq<Seq<Option<TypedContent>>>,
    failure: Option<ErrorContent>,
    columns: Seq<(Seq<char>, SqlTypeFamily)>,
    k: nat,
)
    requires
        1 <= k <= rows.len(),
        forall|i: int| 0 <= i < k - 1 ==> checked_row(#[trigger] rows[i], columns, (i + 1) as nat) is Ok,
        checked_row(rows[k - 1], columns, k) is Err,
    ensures
        mapped_rows(rows, validation(columns), 0).len() == k - 1,
        mapped_failure(rows, failure, validation(columns), 0) == Some(
            checked_row(rows[k - 1], columns, k)->Err_0,
        ),
        mapped_failure(rows, failure, validation(columns), 0)->0.row() == Some(k),
{
    let step = validation(columns);
    assert forall|i: int| 0 <= i < k - 1 implies (#[trigger] step(rows[i], (0 + 1 + i) as nat)) is Ok by {
        assert(checked_row(rows[i], columns, (i + 1) as nat) is Ok);
    }
    lemma_mapped_until_failure(rows, failure, step, 0, k - 1);
    lemma_checked_row_failure_names_row(rows[k - 1], columns, k);
}

/// Checks a cell of the row with the given number against its column.
pub fn validate_cell(
    cell: &Option<TypedValue>,
    column: &(String, SqlTypeFamily),
    row_index: usize,
) -> (r: Result<Option<Datum>, QueryExecutionError>)
    requires
        cell matches Some(value) ==> value@.well_tagged(),
    ensures
        outcome(r) == checked_cell(cell.deep_view(), column.deep_view(), row_index as nat),
{
    let value = match cell {
        None => {
            return Ok(None);
        },
        Some(value) => value,
    };
    let type_family = column.1;
    let value_type = match value {
        TypedValue::Num { type_family, .. } => *type_family,
        TypedValue::String(_) => SqlTypeFamily::String,
        TypedValue::Bool(_) => SqlTypeFamily::Bool,
    };
    match value_type.compare(&type_family) {
        Err(_) => Err(
            QueryExecutionError::TypeMismatch {
                value: value.clone(),
                type_family,
                column_name: column.0.clone(),
                row_index,
            },
        ),
        Ok(_) => match value {
            TypedValue::Num { value: number, .. } => {
                let in_range = match type_family.range() {
                    Some((lo, hi)) => number.is_within(lo, hi),
                    None => false,
                };
                if !in_range {
                    Err(
                        QueryExecutionError::OutOfRange {
                            value: value.clone(),
                            type_family,
                            column_name: column.0.clone(),
                            row_index,
                        },
                    )
                } else if value.is_storable() {
                    Ok(Some(value.convert()))
                } else {
                    Ok(Some(number_cell(number, type_family)))
                }
            },
            _ => Ok(Some(value.convert())),
        },
    }
}

/// Checks the cells of the row with the given number against the columns.
pub fn validate_row(
    row: &Vec<Option<TypedValue>>,
    columns: &Vec<(String, SqlTypeFamily)>,
    row_index: usize,
) -> (r: Result<Vec<Option<Datum>>, QueryExecutionError>)
    requires
        fits_columns(row.deep_view(), columns.deep_view()),
    ensures
        outcome(r) == checked_row(row.deep_view(), columns.deep_view(), row_index as nat),
{
    let ghost values = row.deep_view();
    let ghost described = columns.deep_view();
    let mut data: Vec<Option<Datum>> = Vec::new();
    let mut index: usize = 0;
    proof {
        assert(values.take(0) =~= Seq::<Option<TypedContent>>::empty());
        assert(data.deep_view() =~= Seq::<Option<DatumValue>>::empty());
    }
    while index < row.len()
        invariant
            index <= row@.len(),
            values == row.deep_view(),
            described == columns.deep_view(),
            fits_columns(values, described),
            values.len() == row@.len(),
            described.len() == columns@.len(),
            checked_row(values.take(index as int), described, row_index as nat) == Ok::<
                _,
                ErrorContent,
            >(data.deep_view()),
        decreases row@.len() - index,
    {
        let ghost before = data.deep_view();
        proof {
            assert(values.take(index + 1).drop_last() =~= values.take(index as int));
            assert(values.take(index + 1).last() == row@[index as int].deep_view());
            assert(values[index as int] == row@[index as int].deep_view());
            assert(described[index as int] == columns@[index as int].deep_view());
        }
        match validate_cell(&row[index], &columns[index], row_index) {
            Ok(cell) => {
                data.push(cell);
                proof {
                    assert(data.deep_view() =~= before.push(cell.deep_view()));
                }
            },
            Err(error) => {
                proof {
                    lemma_checked_row_fails(values, described, row_index as nat, index + 1);
                }
                return Err(error);
            },
        }
        index += 1;
    }
    proof {
        assert(values.take(index as int) =~= values);
    }
    Ok(data)
}

/// The validator: holds each value of a row against the family of its
/// column and turns it into its storage cell.
pub struct ConstraintValidator<S: Flow<Output = Vec<Option<TypedValue>>>> {
    source: S,
    column_types: Vec<(String, SqlTypeFamily)>,
    /// Number of rows pulled so far.
    pulled: usize,
}

impl<S: Flow<Output = Vec<Option<TypedValue>>>> ConstraintValidator<S> {
    /// The columns that the rows are held against.
    pub closed spec fn columns(&self) -> Seq<(Seq<char>, SqlTypeFamily)> {
        self.column_types.deep_view()
    }

    /// Number of rows that the validator has pulled so far.
    pub closed spec fn pulled(&self) -> nat {
        self.pulled as nat
    }

    /// The rows that the stage before the validator still hands out.
    pub closed spec fn source_rows(&self) -> Seq<Seq<Option<TypedContent>>> {
        self.source.rows()
    }

    /// The failure that ends the stage before the validator, if any.
    pub closed spec fn source_failure(&self) -> Option<ErrorContent> {
        self.source.failure()
    }

    /// What the validator hands out is what the checks against its columns
    /// make of the rows still to come, numbered on from the rows it has
    /// pulled: the next row that it pulls has the number `pulled() + 1`.
    pub proof fn lemma_rows_by_source(&self)
        ensures
            self.rows() == mapped_rows(
                self.source_rows(),
                validation(self.columns()),
                self.pulled(),
            ),
            self.failure() == mapped_failure(
                self.source_rows(),
                self.source_failure(),
                validation(self.columns()),
                self.pulled(),
            ),
    {
    }

    /// The validator of the rows of `source` against the given columns,
    /// name and family of each. Every row of the source has to have one
    /// cell for each column.
    pub fn new(source: S, column_types: Vec<(String, SqlTypeFamily)>) -> (r: ConstraintValidator<S>)
        requires
            source.wf(),
            forall|i: int|
                0 <= i < source.rows().len() ==> fits_columns(
                    #[trigger] source.rows()[i],
                    column_types.deep_view(),
                ),
        ensures
            r.wf(),
            r.columns() == column_types.deep_view(),
            r.pulled() == 0,
            r.source_rows() == source.rows(),
            r.source_failure() == source.failure(),
            r.rows() == mapped_rows(source.rows(), validation(column_types.deep_view()), 0),
            r.failure() == mapped_failure(
                source.rows(),
                source.failure(),
                validation(column_types.deep_view()),
                0,
            ),
    {
        proof {
            source.lemma_rows_countable();
        }
        ConstraintValidator { source, column_types, pulled: 0 }
    }
}

impl<S: Flow<Output = Vec<Option<TypedValue>>>> Flow for ConstraintValidator<S> {
    type Output = Vec<Option<Datum>>;

    closed spec fn wf(&self) -> bool {
        &&& self.source.wf()
        &&& self.pulled + self.source.rows().len() <= usize::MAX
        &&& forall|i: int|
            0 <= i < self.source.rows().len() ==> fits_columns(
                #[trigger] self.source.rows()[i],
                self.column_types.deep_view(),
            )
    }

    closed spec fn rows(&self) -> Seq<Seq<Option<DatumValue>>> {
        mapped_rows(self.source.rows(), validation(self.column_types.deep_view()), self.pulled as nat)
    }

    closed spec fn failure(&self) -> Option<ErrorContent> {
        mapped_failure(
            self.source.rows(),
            self.source.failure(),
            validation(self.column_types.deep_view()),
            self.pulled as nat,
        )
    }

    proof fn lemma_rows_countable(&self) {
        lemma_mapped_rows_len(
            self.source.rows(),
            validation(self.column_types.deep_view()),
            self.pulled as nat,
        );
    }

    fn next_tuple(&mut self) -> (r: Result<Option<Self::Output>, QueryExecutionError>)
        ensures
            final(self).columns() == old(self).columns(),
            final(self).pulled() == if old(self).source_rows().len() > 0 {
                old(self).pulled() + 1
            } else {
                old(self).pulled()
            },
            r matches Ok(Some(_)) ==> final(self).pulled() == old(self).pulled() + 1,
            r matches Ok(None) ==> final(self).pulled() == old(self).pulled(),
            r is Ok ==> final(self).source_rows() == rows_after(old(self).source_rows())
                && final(self).source_failure() == old(self).source_failure(),
    {
        let ghost rows = self.source.rows();
        match self.source.next_tuple() {
            Err(error) => Err(error),
            Ok(None) => Ok(None),
            Ok(Some(tuple)) => {
                proof {
                    assert(rows.len() > 0);
                    assert(tuple.deep_view() == rows[0]);
                    assert forall|i: int| 0 <= i < rows.drop_first().len() implies fits_columns(
                        #[trigger] rows.drop_first()[i],
                        self.column_types.deep_view(),
                    ) by {
                        assert(rows.drop_first()[i] == rows[i + 1]);
                    }
                }
                self.pulled = self.pulled + 1;
                match validate_row(&tuple, &self.column_types, self.pulled) {
                    Ok(data) => Ok(Some(data)),
                    Err(error) => Err(error),
                }
            },
        }
    }
}

} // verus!

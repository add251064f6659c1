//! The statements that the pipeline executes, as the analysis of a query
//! hands them over, and the pipelines that execute them.

use crate::query_plan::evaluation::{
    assignment, evaluation, lemma_assigned_row_shape, lemma_evaluated_row_shape, projection,
    well_formed_row, well_formed_trees, AssignmentEval, DynamicExpressionEval,
    StaticExpressionEval,
};
use crate::query_plan::flow::{
    lemma_mapped_rows_image, lemma_mapped_rows_len, mapped_failure, mapped_rows, Flow,
    StaticValues, StoredValues,
};
use crate::query_plan::table::{SqlTable, TableInPlan};
use crate::query_plan::validation::{fits_columns, validation, ConstraintValidator};
use crate::typed_tree::{DynamicTypedTree, RowContent, StaticTypedTree, TypedTree};
use crate::typed_values::{well_tagged_values, TypedContent, TypedValue};
use crate::types::SqlTypeFamily;
use vstd::prelude::*;

verus! {

/// The name of a table together with the schema it belongs to.
#[derive(Debug, PartialEq, Eq)]
pub struct FullTableName {
    pub schema: String,
    pub table: String,
}

/// An insert: the rows of values to append to a table.
#[derive(Debug, PartialEq)]
pub struct InsertQuery {
    pub full_table_name: FullTableName,
    pub values: Vec<Vec<Option<StaticTypedTree>>>,
}

/// A delete of the rows of a table.
#[derive(Debug, PartialEq)]
pub struct DeleteQuery {
    pub full_table_name: FullTableName,
}

/// An update: the columns to assign and, position by position, the trees
/// that give their new values.
#[derive(Debug, PartialEq)]
pub struct UpdateQuery {
    pub full_table_name: FullTableName,
    pub column_names: Vec<String>,
    pub assignments: Vec<DynamicTypedTree>,
}

/// A statement that changes a table.
#[derive(Debug, PartialEq)]
pub enum TypedWrite {
    Insert(InsertQuery),
    Delete(DeleteQuery),
    Update(UpdateQuery),
}

/// A select: the trees that give the cells of each row of the result.
#[derive(Debug, PartialEq)]
pub struct TypedSelectQuery {
    pub full_table_name: FullTableName,
    pub projection_items: Vec<DynamicTypedTree>,
}

/// The pipeline of an insert, from its rows to the table.
pub type InsertPlan<T> = TableInPlan<ConstraintValidator<StaticExpressionEval<StaticValues>>, T>;

/// The pipeline of an update, from the stored rows to their rewrite in the
/// table.
pub type UpdatePlan<T> = TableInPlan<ConstraintValidator<AssignmentEval<StoredValues>>, T>;

/// The pipeline of a select, from the stored rows to the rows of the
/// result.
pub type SelectPlan = DynamicExpressionEval<StoredValues>;

/// Whether the rows of an insert can be held against `columns` columns:
/// every row has one cell for each column, and every tree is well formed.
pub open spec fn insert_fits(values: Seq<Seq<Option<TypedTree>>>, columns: nat) -> bool {
    forall|i: int|
        0 <= i < values.len() ==> (#[trigger] values[i]).len() == columns && well_formed_row(
            values[i],
        )
}

/// Whether stored rows can be held against `columns` columns: every row
/// has one cell for each column, and its numbers are tagged with integer
/// families.
pub open spec fn stored_rows_fit(rows: Seq<Seq<Option<TypedContent>>>, columns: nat) -> bool {
    forall|i: int|
        0 <= i < rows.len() ==> (#[trigger] rows[i]).len() == columns && well_tagged_values(rows[i])
}

/// The names of columns.
pub open spec fn column_names(columns: Seq<(Seq<char>, SqlTypeFamily)>) -> Seq<Seq<char>> {
    columns.map_values(|column: (Seq<char>, SqlTypeFamily)| column.0)
}

/// The names of columns.
fn names_of(columns: &Vec<(String, SqlTypeFamily)>) -> (r: Vec<String>)
    ensures
        r.deep_view() == column_names(columns.deep_view()),
{
    let mut names: Vec<String> = Vec::new();
    let mut i: usize = 0;
    while i < columns.len()
        invariant
            i <= columns@.len(),
            names@.len() == i,
            forall|k: int| 0 <= k < i ==> (#[trigger] names@[k])@ == columns@[k].0@,
        decreases columns@.len() - i,
    {
        names.push(columns[i].0.clone());
        i += 1;
    }
    proof {
        assert(names.deep_view() =~= column_names(columns.deep_view()));
    }
    names
}

/// Whether stored rows can be held against `columns` columns.
pub fn do_stored_rows_fit(rows: &Vec<Vec<Option<TypedValue>>>, columns: usize) -> (r: bool)
    ensures
        r == stored_rows_fit(rows.deep_view(), columns as nat),
{
    let ghost content = rows.deep_view();
    let mut i: usize = 0;
    while i < rows.len()
        invariant
            i <= rows@.len(),
            content == rows.deep_view(),
            content.len() == rows@.len(),
            forall|k: int|
                0 <= k < i ==> (#[trigger] content[k]).len() == columns && well_tagged_values(
                    content[k],
                ),
        decreases rows@.len() - i,
    {
        let row = &rows[i];
        let ghost values = row.deep_view();
        proof {
            assert(content[i as int] == values);
        }
        if row.len() != columns {
            return false;
        }
        let mut j: usize = 0;
        while j < row.len()
            invariant
                j <= row@.len(),
                0 <= i < content.len(),
                content == rows.deep_view(),
                content[i as int] == values,
                values == row.deep_view(),
                values.len() == row@.len(),
                forall|k: int|
                    0 <= k < j ==> ((#[trigger] values[k]) matches Some(value)
                        ==> value.well_tagged()),
            decreases row@.len() - j,
        {
            proof {
                assert(values[j as int] == row@[j as int].deep_view());
            }
            match &row[j] {
                Some(TypedValue::Num { type_family, .. }) => {
                    if !type_family.is_integer_family() {
                        proof {
                            assert(!(values[j as int] matches Some(value)
                                ==> value.well_tagged()));
                            assert(!well_tagged_values(content[i as int]));
                        }
                        return false;
                    }
                },
                _ => {},
            }
            j += 1;
        }
        i += 1;
    }
    true
}

impl InsertQuery {
    /// Whether the rows of the insert can be held against `columns`
    /// columns.
    pub fn fits(&self, columns: usize) -> (r: bool)
        ensures
            r == insert_fits(self.values.deep_view(), columns as nat),
    {
        let ghost content = self.values.deep_view();
        let mut i: usize = 0;
        while i < self.values.len()
            invariant
                i <= self.values@.len(),
                content == self.values.deep_view(),
                content.len() == self.values@.len(),
                forall|k: int|
                    0 <= k < i ==> (#[trigger] content[k]).len() == columns && well_formed_row(
                        content[k],
                    ),
            decreases self.values@.len() - i,
        {
            let row = &self.values[i];
            let ghost trees = row.deep_view();
            proof {
                assert(content[i as int] == trees);
            }
            if row.len() != columns {
                return false;
            }
            let mut j: usize = 0;
            while j < row.len()
                invariant
                    j <= row@.len(),
                    0 <= i < content.len(),
                    content == self.values.deep_view(),
                    content[i as int] == trees,
                    trees == row.deep_view(),
                    trees.len() == row@.len(),
                    forall|k: int|
                        0 <= k < j ==> ((#[trigger] trees[k]) matches Some(tree)
                            ==> tree.well_formed()),
                decreases row@.len() - j,
            {
                proof {
                    assert(trees[j as int] == row@[j as int].deep_view());
                }
                match &row[j] {
                    Some(tree) => {
                        if !tree.tree().is_well_formed() {
                            proof {
                                assert(!(trees[j as int] matches Some(tree)
                                    ==> tree.well_formed()));
                                assert(!well_formed_row(content[i as int]));
                            }
                            return false;
                        }
                    },
                    None => {},
                }
                j += 1;
            }
            i += 1;
        }
        true
    }

    /// The pipeline that evaluates the rows of the insert, holds them
    /// against the given columns of the table, name and family of each, and
    /// writes them to `table`.
    pub fn plan<T: SqlTable>(self, column_types: Vec<(String, SqlTypeFamily)>, table: T) -> (r:
        InsertPlan<T>)
        requires
            insert_fits(self.values.deep_view(), column_types@.len()),
        ensures
            r.wf(),
            r.written() == table.written(),
            r.pending() == mapped_rows(
                mapped_rows(self.values.deep_view(), evaluation(), 0),
                validation(column_types.deep_view()),
                0,
            ),
            r.failure() == mapped_failure(
                mapped_rows(self.values.deep_view(), evaluation(), 0),
                mapped_failure(self.values.deep_view(), None, evaluation(), 0),
                validation(column_types.deep_view()),
                0,
            ),
    {
        let ghost values = self.values.deep_view();
        let ghost evaluated_rows = mapped_rows(values, evaluation(), 0);
        let source = StaticValues::from(self.values);
        let evaluated = StaticExpressionEval::new(source);
        proof {
            assert forall|i: int| 0 <= i < evaluated_rows.len() implies fits_columns(
                #[trigger] evaluated_rows[i],
                column_types.deep_view(),
            ) by {
                lemma_mapped_rows_image(values, evaluation(), 0, i);
                lemma_evaluated_row_shape(values[i]);
            }
        }
        let validated = ConstraintValidator::new(evaluated, column_types);
        TableInPlan::new(validated, table)
    }
}

impl UpdateQuery {
    /// Whether the update can be executed: there is one assignment for
    /// each assigned column, and every assignment is well formed.
    pub open spec fn fits(self) -> bool {
        &&& self.column_names@.len() == self.assignments@.len()
        &&& well_formed_trees(self.assignments.deep_view())
    }

    /// Exec counterpart of [`Self::fits`].
    pub fn is_fit(&self) -> (r: bool)
        ensures
            r == self.fits(),
    {
        if self.column_names.len() != self.assignments.len() {
            return false;
        }
        let ghost trees = self.assignments.deep_view();
        let mut i: usize = 0;
        while i < self.assignments.len()
            invariant
                i <= self.assignments@.len(),
                trees == self.assignments.deep_view(),
                trees.len() == self.assignments@.len(),
                forall|k: int| 0 <= k < i ==> (#[trigger] trees[k]).well_formed(),
            decreases self.assignments@.len() - i,
        {
            proof {
                assert(trees[i as int] == self.assignments@[i as int].deep_view());
            }
            if !self.assignments[i].tree.is_well_formed() {
                return false;
            }
            i += 1;
        }
        true
    }

    /// The pipeline that evaluates the assignments of the update against
    /// the given stored rows of `table`, holds the new rows against the
    /// given columns of the table, name and family of each, and rewrites
    /// the rows of `table` in place.
    pub fn plan<T: SqlTable>(
        self,
        column_types: Vec<(String, SqlTypeFamily)>,
        rows: Vec<Vec<Option<TypedValue>>>,
        table: T,
    ) -> (r: UpdatePlan<T>)
        requires
            self.fits(),
            stored_rows_fit(rows.deep_view(), column_types@.len()),
            rows@.len() <= table.written().len(),
        ensures
            r.wf(),
            r.written() == table.written(),
            r.pending().len() <= r.written().len(),
            r.pending() == mapped_rows(
                mapped_rows(
                    rows.deep_view(),
                    assignment(
                        self.column_names.deep_view(),
                        self.assignments.deep_view(),
                        column_names(column_types.deep_view()),
                    ),
                    0,
                ),
                validation(column_types.deep_view()),
                0,
            ),
            r.failure() == mapped_failure(
                mapped_rows(
                    rows.deep_view(),
                    assignment(
                        self.column_names.deep_view(),
                        self.assignments.deep_view(),
                        column_names(column_types.deep_view()),
                    ),
                    0,
                ),
                mapped_failure(
                    rows.deep_view(),
                    None,
                    assignment(
                        self.column_names.deep_view(),
                        self.assignments.deep_view(),
                        column_names(column_types.deep_view()),
                    ),
                    0,
                ),
                validation(column_types.deep_view()),
                0,
            ),
    {
        let ghost stored = rows.deep_view();
        let ghost trees = self.assignments.deep_view();
        let ghost assigned = self.column_names.deep_view();
        let table_columns = names_of(&column_types);
        let ghost names = table_columns.deep_view();
        let ghost step = assignment(assigned, trees, names);
        let ghost evaluated_rows = mapped_rows(stored, step, 0);
        let evaluated = AssignmentEval::new(
            StoredValues::from(rows),
            table_columns,
            self.column_names,
            self.assignments,
        );
        proof {
            assert(names.len() == column_types.deep_view().len());
            assert forall|i: int| 0 <= i < evaluated_rows.len() implies fits_columns(
                #[trigger] evaluated_rows[i],
                column_types.deep_view(),
            ) by {
                lemma_mapped_rows_image(stored, step, 0, i);
                lemma_assigned_row_shape(
                    assigned,
                    trees,
                    RowContent { columns: names, values: stored[i] },
                );
            }
            lemma_mapped_rows_len(stored, step, 0);
            lemma_mapped_rows_len(evaluated_rows, validation(column_types.deep_view()), 0);
        }
        let validated = ConstraintValidator::new(evaluated, column_types);
        TableInPlan::new(validated, table)
    }
}

impl TypedSelectQuery {
    /// The pipeline that evaluates the projection of the select against
    /// the given stored rows, whose cells are the values of the columns of
    /// the given names.
    pub fn plan(self, column_names: Vec<String>, rows: Vec<Vec<Option<TypedValue>>>) -> (r:
        SelectPlan)
        ensures
            r.wf(),
            r.rows() == mapped_rows(
                rows.deep_view(),
                projection(self.projection_items.deep_view(), column_names.deep_view()),
                0,
            ),
            r.failure() == mapped_failure(
                rows.deep_view(),
                None,
                projection(self.projection_items.deep_view(), column_names.deep_view()),
                0,
            ),
    {
        DynamicExpressionEval::new(StoredValues::from(rows), column_names, self.projection_items)
    }
}

} // verus!

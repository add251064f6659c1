//! The evaluators: stages that fold the trees of a statement to values,
//! without a row for an insert, against each stored row for a select or an
//! update.

use crate::query_plan::flow::{
    lemma_mapped_rows_len, lemma_mapped_whatever_the_count, mapped_failure, mapped_rows, Flow,
};
use crate::query_result::{outcome, ErrorContent, QueryExecutionError};
use crate::typed_tree::{
    lemma_first_position, lemma_value_well_tagged, lemma_value_without_row_not_null,
    static_value, DynamicTypedTree, Row, RowContent, StaticTypedTree, TypedTree,
};
use crate::typed_values::{well_tagged_values, TypedContent, TypedValue};
use vstd::prelude::*;

verus! {

/// The values that the trees of a row evaluate to, cell by cell, absent
/// cells staying absent; the failure of the first tree that fails.
pub open spec fn evaluated_row(row: Seq<Option<TypedTree>>) -> Result<
    Seq<Option<TypedContent>>,
    ErrorContent,
>
    decreases row.len(),
{
    if row.len() == 0 {
        Ok(Seq::<Option<TypedContent>>::empty())
    } else {
        match evaluated_row(row.drop_last()) {
            Err(error) => Err(error),
            Ok(values) => match row.last() {
                None => Ok(values.push(None)),
                Some(tree) => match static_value(tree) {
                    Ok(value) => Ok(values.push(Some(value))),
                    Err(error) => Err(error),
                },
            },
        }
    }
}

/// The step of the evaluator: a row of trees becomes a row of values.
pub open spec fn evaluation() -> spec_fn(Seq<Option<TypedTree>>, nat) -> Result<
    Seq<Option<TypedContent>>,
    ErrorContent,
> {
    |row: Seq<Option<TypedTree>>, number: nat| evaluated_row(row)
}

/// Evaluates the trees of a row.
pub fn evaluate_row(row: &Vec<Option<StaticTypedTree>>) -> (r: Result<
    Vec<Option<TypedValue>>,
    QueryExecutionError,
>)
    ensures
        outcome(r) == evaluated_row(row.deep_view()),
{
    let ghost trees = row.deep_view();
    let mut values: Vec<Option<TypedValue>> = Vec::new();
    let mut i: usize = 0;
    proof {
        assert(trees.take(0) =~= Seq::<Option<TypedTree>>::empty());
        assert(values.deep_view() =~= Seq::<Option<TypedContent>>::empty());
    }
    while i < row.len()
        invariant
            i <= row@.len(),
            trees == row.deep_view(),
            trees.len() == row@.len(),
            evaluated_row(trees.take(i as int)) == Ok::<_, ErrorContent>(values.deep_view()),
        decreases row@.len() - i,
    {
        let ghost before = values.deep_view();
        proof {
            assert(trees.take(i + 1).drop_last() =~= trees.take(i as int));
            assert(trees.take(i + 1).last() == row@[i as int].deep_view());
        }
        match &row[i] {
            None => {
                values.push(None);
                proof {
                    assert(values.deep_view() =~= before.push(None));
                }
            },
            Some(tree) => match tree.eval() {
                Ok(value) => {
                    values.push(Some(value));
                    proof {
                        assert(values.deep_view() =~= before.push(Some(value@)));
                    }
                },
                Err(error) => {
                    proof {
                        lemma_evaluated_row_fails(trees, i + 1);
                    }
                    return Err(error);
                },
            },
        }
        i += 1;
    }
    proof {
        assert(trees.take(i as int) =~= trees);
    }
    Ok(values)
}

/// A row whose front fails to evaluate fails in the same way.
pub proof fn lemma_evaluated_row_fails(row: Seq<Option<TypedTree>>, front: int)
    requires
        0 <= front <= row.len(),
        evaluated_row(row.take(front)) is Err,
    ensures
        evaluated_row(row) == evaluated_row(row.take(front)),
    decreases row.len(),
{
    if front < row.len() {
        assert(row.drop_last().take(front) =~= row.take(front));
        lemma_evaluated_row_fails(row.drop_last(), front);
    } else {
        assert(row.take(front) =~= row);
    }
}

/// Whether every tree of a row is well formed.
pub open spec fn well_formed_row(row: Seq<Option<TypedTree>>) -> bool {
    forall|i: int|
        0 <= i < row.len() ==> ((#[trigger] row[i]) matches Some(tree) ==> tree.well_formed())
}

/// A row of trees evaluates to a row of as many cells; where the trees are
/// well formed, its numbers are tagged with integer families.
pub proof fn lemma_evaluated_row_shape(row: Seq<Option<TypedTree>>)
    ensures
        evaluated_row(row) matches Ok(values) ==> values.len() == row.len() && (well_formed_row(
            row,
        ) ==> well_tagged_values(values)),
    decreases row.len(),
{
    if row.len() > 0 {
        let front = row.drop_last();
        lemma_evaluated_row_shape(front);
        if let Ok(values) = evaluated_row(row) {
            let before = evaluated_row(front)->Ok_0;
            if well_formed_row(row) {
                assert forall|i: int| 0 <= i < front.len() implies ((#[trigger] front[i]) matches Some(
                    tree,
                ) ==> tree.well_formed()) by {
                    assert(front[i] == row[i]);
                }
                assert(row.last() == row[row.len() - 1]);
                if let Some(tree) = row.last() {
                    lemma_value_well_tagged(tree, None);
                    lemma_value_without_row_not_null(tree);
                }
                assert forall|i: int| 0 <= i < values.len() implies ((#[trigger] values[i]) matches Some(
                    value,
                ) ==> value.well_tagged()) by {
                    if i < before.len() {
                        assert(values[i] == before[i]);
                    }
                }
            }
        }
    }
}

/// The evaluator: folds each tree of a row to its value.
pub struct StaticExpressionEval<S: Flow<Output = Vec<Option<StaticTypedTree>>>> {
    source: S,
}

impl<S: Flow<Output = Vec<Option<StaticTypedTree>>>> StaticExpressionEval<S> {
    /// The evaluator of the rows of `source`.
    pub fn new(source: S) -> (r: StaticExpressionEval<S>)
        requires
            source.wf(),
        ensures
            r.wf(),
            r.rows() == mapped_rows(source.rows(), evaluation(), 0),
            r.failure() == mapped_failure(source.rows(), source.failure(), evaluation(), 0),
    {
        StaticExpressionEval { source }
    }
}

impl<S: Flow<Output = Vec<Option<StaticTypedTree>>>> Flow for StaticExpressionEval<S> {
    type Output = Vec<Option<TypedValue>>;

    closed spec fn wf(&self) -> bool {
        self.source.wf()
    }

    closed spec fn rows(&self) -> Seq<Seq<Option<TypedContent>>> {
        mapped_rows(self.source.rows(), evaluation(), 0)
    }

    closed spec fn failure(&self) -> Option<ErrorContent> {
        mapped_failure(self.source.rows(), self.source.failure(), evaluation(), 0)
    }

    proof fn lemma_rows_countable(&self) {
        self.source.lemma_rows_countable();
        lemma_mapped_rows_len(self.source.rows(), evaluation(), 0);
    }

    fn next_tuple(&mut self) -> (r: Result<Option<Self::Output>, QueryExecutionError>) {
        let ghost rows = self.source.rows();
        let ghost failure = self.source.failure();
        match self.source.next_tuple() {
            Err(error) => Err(error),
            Ok(None) => Ok(None),
            Ok(Some(tuple)) => {
                proof {
                    lemma_mapped_whatever_the_count(rows.drop_first(), failure, evaluation(), 1, 0);
                }
                match evaluate_row(&tuple) {
                    Ok(values) => Ok(Some(values)),
                    Err(error) => Err(error),
                }
            },
        }
    }
}

/// The values that trees evaluate to against a row, tree by tree, null
/// giving an absent value; the failure of the first tree that fails.
pub open spec fn projected_row(trees: Seq<TypedTree>, row: RowContent) -> Result<
    Seq<Option<TypedContent>>,
    ErrorContent,
>
    decreases trees.len(),
{
    if trees.len() == 0 {
        Ok(Seq::<Option<TypedContent>>::empty())
    } else {
        match projected_row(trees.drop_last(), row) {
            Err(error) => Err(error),
            Ok(values) => match trees.last().value(Some(row)) {
                Ok(value) => Ok(values.push(value)),
                Err(error) => Err(error),
            },
        }
    }
}

/// The step of the evaluator of dynamic trees: a stored row becomes the row
/// of the values of the trees against it.
pub open spec fn projection(trees: Seq<TypedTree>, columns: Seq<Seq<char>>) -> spec_fn(
    Seq<Option<TypedContent>>,
    nat,
) -> Result<Seq<Option<TypedContent>>, ErrorContent> {
    |values: Seq<Option<TypedContent>>, number: nat|
        projected_row(trees, RowContent { columns, values })
}

/// Trees whose front fails against a row fail in the same way.
pub proof fn lemma_projected_row_fails(trees: Seq<TypedTree>, row: RowContent, front: int)
    requires
        0 <= front <= trees.len(),
        projected_row(trees.take(front), row) is Err,
    ensures
        projected_row(trees, row) == projected_row(trees.take(front), row),
    decreases trees.len(),
{
    if front < trees.len() {
        assert(trees.drop_last().take(front) =~= trees.take(front));
        lemma_projected_row_fails(trees.drop_last(), row, front);
    } else {
        assert(trees.take(front) =~= trees);
    }
}

/// Whether every tree is well formed.
pub open spec fn well_formed_trees(trees: Seq<TypedTree>) -> bool {
    forall|i: int| 0 <= i < trees.len() ==> (#[trigger] trees[i]).well_formed()
}

/// Trees evaluate against a row to a row of one cell for each tree; where
/// the trees are well formed and the numbers of the row are tagged with
/// integer families, so are the numbers among the cells.
pub proof fn lemma_projected_row_shape(trees: Seq<TypedTree>, row: RowContent)
    ensures
        projected_row(trees, row) matches Ok(values) ==> values.len() == trees.len() && (
        well_formed_trees(trees) && row.well_tagged() ==> well_tagged_values(values)),
    decreases trees.len(),
{
    if trees.len() > 0 {
        let front = trees.drop_last();
        lemma_projected_row_shape(front, row);
        if let Ok(values) = projected_row(trees, row) {
            let before = projected_row(front, row)->Ok_0;
            if well_formed_trees(trees) && row.well_tagged() {
                assert forall|i: int| 0 <= i < front.len() implies (#[trigger] front[i]).well_formed() by {
                    assert(front[i] == trees[i]);
                }
                assert(trees.last() == trees[trees.len() - 1]);
                lemma_value_well_tagged(trees.last(), Some(row));
                assert forall|i: int| 0 <= i < values.len() implies ((#[trigger] values[i]) matches Some(
                    value,
                ) ==> value.well_tagged()) by {
                    if i < before.len() {
                        assert(values[i] == before[i]);
                    }
                }
            }
        }
    }
}

/// Evaluates trees against a row.
pub fn project_row(trees: &Vec<DynamicTypedTree>, row: &Row) -> (r: Result<
    Vec<Option<TypedValue>>,
    QueryExecutionError,
>)
    ensures
        outcome(r) == projected_row(trees.deep_view(), row@),
{
    let ghost items = trees.deep_view();
    let mut values: Vec<Option<TypedValue>> = Vec::new();
    let mut i: usize = 0;
    proof {
        assert(items.take(0) =~= Seq::<TypedTree>::empty());
        assert(values.deep_view() =~= Seq::<Option<TypedContent>>::empty());
    }
    while i < trees.len()
        invariant
            i <= trees@.len(),
            items == trees.deep_view(),
            items.len() == trees@.len(),
            projected_row(items.take(i as int), row@) == Ok::<_, ErrorContent>(values.deep_view()),
        decreases trees@.len() - i,
    {
        let ghost before = values.deep_view();
        proof {
            assert(items.take(i + 1).drop_last() =~= items.take(i as int));
            assert(items.take(i + 1).last() == trees@[i as int].deep_view());
        }
        match trees[i].eval(row) {
            Ok(value) => {
                values.push(value);
                proof {
                    assert(values.deep_view() =~= before.push(value.deep_view()));
                }
            },
            Err(error) => {
                proof {
                    lemma_projected_row_fails(items, row@, i + 1);
                }
                return Err(error);
            },
        }
        i += 1;
    }
    proof {
        assert(items.take(i as int) =~= items);
    }
    Ok(values)
}

/// The evaluator of dynamic trees: evaluates the assignments of an update
/// or the projection of a select against each stored row.
pub struct DynamicExpressionEval<S: Flow<Output = Vec<Option<TypedValue>>>> {
    source: S,
    trees: Vec<DynamicTypedTree>,
    /// The columns of the stored rows, with the values of the row that was
    /// pulled last.
    row: Row,
}

impl<S: Flow<Output = Vec<Option<TypedValue>>>> DynamicExpressionEval<S> {
    /// The evaluator of `trees` against the rows of `source`, whose cells
    /// are the values of the columns of the given names, position by
    /// position.
    pub fn new(source: S, column_names: Vec<String>, trees: Vec<DynamicTypedTree>) -> (r:
        DynamicExpressionEval<S>)
        requires
            source.wf(),
        ensures
            r.wf(),
            r.rows() == mapped_rows(
                source.rows(),
                projection(trees.deep_view(), column_names.deep_view()),
                0,
            ),
            r.failure() == mapped_failure(
                source.rows(),
                source.failure(),
                projection(trees.deep_view(), column_names.deep_view()),
                0,
            ),
    {
        DynamicExpressionEval { source, trees, row: Row { columns: column_names, values: Vec::new() } }
    }
}

impl<S: Flow<Output = Vec<Option<TypedValue>>>> Flow for DynamicExpressionEval<S> {
    type Output = Vec<Option<TypedValue>>;

    closed spec fn wf(&self) -> bool {
        self.source.wf()
    }

    closed spec fn rows(&self) -> Seq<Seq<Option<TypedContent>>> {
        mapped_rows(
            self.source.rows(),
            projection(self.trees.deep_view(), self.row.columns.deep_view()),
            0,
        )
    }

    closed spec fn failure(&self) -> Option<ErrorContent> {
        mapped_failure(
            self.source.rows(),
            self.source.failure(),
            projection(self.trees.deep_view(), self.row.columns.deep_view()),
            0,
        )
    }

    proof fn lemma_rows_countable(&self) {
        self.source.lemma_rows_countable();
        lemma_mapped_rows_len(
            self.source.rows(),
            projection(self.trees.deep_view(), self.row.columns.deep_view()),
            0,
        );
    }

    fn next_tuple(&mut self) -> (r: Result<Option<Self::Output>, QueryExecutionError>) {
        let ghost rows = self.source.rows();
        let ghost failure = self.source.failure();
        match self.source.next_tuple() {
            Err(error) => Err(error),
            Ok(None) => Ok(None),
            Ok(Some(tuple)) => {
                proof {
                    lemma_mapped_whatever_the_count(
                        rows.drop_first(),
                        failure,
                        projection(self.trees.deep_view(), self.row.columns.deep_view()),
                        1,
                        0,
                    );
                }
                self.row.values = tuple;
                match project_row(&self.trees, &self.row) {
                    Ok(values) => Ok(Some(values)),
                    Err(error) => Err(error),
                }
            },
        }
    }
}

/// The row that an update makes of a stored row: the values of the stored
/// row, with the value of each assignment, evaluated against the stored
/// row, in the place of the column of its name. The assignments are taken
/// in their order; the first whose column the row lacks, or whose tree
/// fails, ends the row with that failure.
pub open spec fn assigned_row(names: Seq<Seq<char>>, trees: Seq<TypedTree>, row: RowContent) -> Result<
    Seq<Option<TypedContent>>,
    ErrorContent,
>
    decreases trees.len(),
{
    if trees.len() == 0 {
        Ok(row.values)
    } else {
        let name = names[trees.len() - 1];
        match assigned_row(names, trees.drop_last(), row) {
            Err(error) => Err(error),
            Ok(values) => match row.position(name) {
                Some(at) => if at < values.len() {
                    match trees.last().value(Some(row)) {
                        Ok(value) => Ok(values.update(at, value)),
                        Err(error) => Err(error),
                    }
                } else {
                    Err(ErrorContent::UndefinedColumn { name })
                },
                None => Err(ErrorContent::UndefinedColumn { name }),
            },
        }
    }
}

/// The step of the evaluator of an update: a stored row becomes the row
/// with the assigned values in place.
pub open spec fn assignment(
    names: Seq<Seq<char>>,
    trees: Seq<TypedTree>,
    columns: Seq<Seq<char>>,
) -> spec_fn(Seq<Option<TypedContent>>, nat) -> Result<Seq<Option<TypedContent>>, ErrorContent> {
    |values: Seq<Option<TypedContent>>, number: nat|
        assigned_row(names, trees, RowContent { columns, values })
}

/// Assignments whose front fails against a row fail in the same way.
pub proof fn lemma_assigned_row_fails(
    names: Seq<Seq<char>>,
    trees: Seq<TypedTree>,
    row: RowContent,
    front: int,
)
    requires
        0 <= front <= trees.len(),
        assigned_row(names, trees.take(front), row) is Err,
    ensures
        assigned_row(names, trees, row) == assigned_row(names, trees.take(front), row),
    decreases trees.len(),
{
    if front < trees.len() {
        assert(trees.drop_last().take(front) =~= trees.take(front));
        lemma_assigned_row_fails(names, trees.drop_last(), row, front);
    } else {
        assert(trees.take(front) =~= trees);
    }
}

/// An update makes of a stored row a row of as many cells; where the
/// assignments are well formed and the numbers of the stored row are
/// tagged with integer families, so are the numbers of the new row.
pub proof fn lemma_assigned_row_shape(names: Seq<Seq<char>>, trees: Seq<TypedTree>, row: RowContent)
    ensures
        assigned_row(names, trees, row) matches Ok(values) ==> values.len() == row.values.len() && (
        well_formed_trees(trees) && row.well_tagged() ==> well_tagged_values(values)),
    decreases trees.len(),
{
    if trees.len() > 0 {
        let front = trees.drop_last();
        lemma_assigned_row_shape(names, front, row);
        if let Ok(values) = assigned_row(names, trees, row) {
            let before = assigned_row(names, front, row)->Ok_0;
            let at = row.position(names[trees.len() - 1])->0;
            lemma_first_position(row.columns, names[trees.len() - 1]);
            if well_formed_trees(trees) && row.well_tagged() {
                assert forall|i: int| 0 <= i < front.len() implies (#[trigger] front[i]).well_formed() by {
                    assert(front[i] == trees[i]);
                }
                assert(trees.last() == trees[trees.len() - 1]);
                lemma_value_well_tagged(trees.last(), Some(row));
                assert forall|i: int| 0 <= i < values.len() implies ((#[trigger] values[i]) matches Some(
                    value,
                ) ==> value.well_tagged()) by {
                    if i != at {
                        assert(values[i] == before[i]);
                    }
                }
            }
        }
    }
}

/// Makes of a stored row the row that an update gives it.
pub fn assign_row(names: &Vec<String>, trees: &Vec<DynamicTypedTree>, row: &Row) -> (r: Result<
    Vec<Option<TypedValue>>,
    QueryExecutionError,
>)
    requires
        names@.len() == trees@.len(),
    ensures
        outcome(r) == assigned_row(names.deep_view(), trees.deep_view(), row@),
{
    let ghost columns = names.deep_view();
    let ghost items = trees.deep_view();
    let mut values: Vec<Option<TypedValue>> = Vec::new();
    let mut k: usize = 0;
    while k < row.values.len()
        invariant
            k <= row.values@.len(),
            values@.len() == k,
            forall|i: int| 0 <= i < k ==> (#[trigger] values@[i]).deep_view() == row.values@[i].deep_view(),
        decreases row.values@.len() - k,
    {
        values.push(
            match &row.values[k] {
                Some(value) => Some(value.clone()),
                None => None,
            },
        );
        k += 1;
    }
    let mut i: usize = 0;
    proof {
        assert(items.take(0) =~= Seq::<TypedTree>::empty());
        assert(values.deep_view() =~= row@.values);
    }
    while i < trees.len()
        invariant
            i <= trees@.len(),
            names@.len() == trees@.len(),
            columns == names.deep_view(),
            items == trees.deep_view(),
            items.len() == trees@.len(),
            assigned_row(columns, items.take(i as int), row@) == Ok::<_, ErrorContent>(
                values.deep_view(),
            ),
        decreases trees@.len() - i,
    {
        let ghost before = values.deep_view();
        proof {
            assert(items.take(i + 1).drop_last() =~= items.take(i as int));
            assert(items.take(i + 1).last() == trees@[i as int].deep_view());
            assert(columns[i as int] == names@[i as int]@);
        }
        let at = match row.position(&names[i]) {
            Some(at) if at < values.len() => at,
            _ => {
                proof {
                    lemma_assigned_row_fails(columns, items, row@, i + 1);
                }
                return Err(QueryExecutionError::UndefinedColumn { name: names[i].clone() });
            },
        };
        match trees[i].eval(row) {
            Ok(value) => {
                values[at] = value;
                proof {
                    assert(values.deep_view() =~= before.update(at as int, value.deep_view()));
                }
            },
            Err(error) => {
                proof {
                    lemma_assigned_row_fails(columns, items, row@, i + 1);
                }
                return Err(error);
            },
        }
        i += 1;
    }
    proof {
        assert(items.take(i as int) =~= items);
    }
    Ok(values)
}

/// The evaluator of an update: evaluates the assignments against each
/// stored row and hands out the row with the new values in place.
pub struct AssignmentEval<S: Flow<Output = Vec<Option<TypedValue>>>> {
    source: S,
    names: Vec<String>,
    trees: Vec<DynamicTypedTree>,
    /// The columns of the stored rows, with the values of the row that was
    /// pulled last.
    row: Row,
}

impl<S: Flow<Output = Vec<Option<TypedValue>>>> AssignmentEval<S> {
    /// The evaluator of the assignments `trees` to the columns `names`,
    /// position by position, against the rows of `source`, whose cells are
    /// the values of the columns of the names in `table_columns`.
    pub fn new(
        source: S,
        table_columns: Vec<String>,
        names: Vec<String>,
        trees: Vec<DynamicTypedTree>,
    ) -> (r: AssignmentEval<S>)
        requires
            source.wf(),
            names@.len() == trees@.len(),
        ensures
            r.wf(),
            r.rows() == mapped_rows(
                source.rows(),
                assignment(names.deep_view(), trees.deep_view(), table_columns.deep_view()),
                0,
            ),
            r.failure() == mapped_failure(
                source.rows(),
                source.failure(),
                assignment(names.deep_view(), trees.deep_view(), table_columns.deep_view()),
                0,
            ),
    {
        AssignmentEval { source, names, trees, row: Row { columns: table_columns, values: Vec::new() } }
    }
}

impl<S: Flow<Output = Vec<Option<TypedValue>>>> Flow for AssignmentEval<S> {
    type Output = Vec<Option<TypedValue>>;

    closed spec fn wf(&self) -> bool {
        &&& self.source.wf()
        &&& self.names@.len() == self.trees@.len()
    }

    closed spec fn rows(&self) -> Seq<Seq<Option<TypedContent>>> {
        mapped_rows(
            self.source.rows(),
            assignment(
                self.names.deep_view(),
                self.trees.deep_view(),
                self.row.columns.deep_view(),
            ),
            0,
        )
    }

    closed spec fn failure(&self) -> Option<ErrorContent> {
        mapped_failure(
            self.source.rows(),
            self.source.failure(),
            assignment(
                self.names.deep_view(),
                self.trees.deep_view(),
                self.row.columns.deep_view(),
            ),
            0,
        )
    }

    proof fn lemma_rows_countable(&self) {
        self.source.lemma_rows_countable();
        lemma_mapped_rows_len(
            self.source.rows(),
            assignment(
                self.names.deep_view(),
                self.trees.deep_view(),
                self.row.columns.deep_view(),
            ),
            0,
        );
    }

    fn next_tuple(&mut self) -> (r: Result<Option<Self::Output>, QueryExecutionError>) {
        let ghost rows = self.source.rows();
        let ghost failure = self.source.failure();
        match self.source.next_tuple() {
            Err(error) => Err(error),
            Ok(None) => Ok(None),
            Ok(Some(tuple)) => {
                proof {
                    lemma_mapped_whatever_the_count(
                        rows.drop_first(),
                        failure,
                        assignment(
                            self.names.deep_view(),
                            self.trees.deep_view(),
                            self.row.columns.deep_view(),
                        ),
                        1,
                        0,
                    );
                }
                self.row.values = tuple;
                match assign_row(&self.names, &self.trees, &self.row) {
                    Ok(values) => Ok(Some(values)),
                    Err(error) => Err(error),
                }
            },
        }
    }
}

} // verus!

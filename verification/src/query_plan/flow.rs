//! Stages and sources: what it is to hand out rows one at a time, and the
//! stages that hand out rows they were given.

use crate::query_result::{outcome, ErrorContent, QueryExecutionError};
use crate::typed_tree::{StaticTypedTree, TypedTree};
use crate::typed_values::{TypedContent, TypedValue};
use vstd::prelude::*;

verus! {

/// What a stage hands out next: the first of the rows it still holds, or,
/// when it holds none, the failure that ends it or the end of the sequence.
pub open spec fn next_outcome<R>(rows: Seq<R>, failure: Option<ErrorContent>) -> Result<
    Option<R>,
    ErrorContent,
> {
    if rows.len() > 0 {
        Ok(Some(rows[0]))
    } else {
        match failure {
            Some(error) => Err(error),
            None => Ok(None),
        }
    }
}

/// What is left of a sequence of rows when the first has been handed out.
pub open spec fn rows_after<R>(rows: Seq<R>) -> Seq<R> {
    if rows.len() > 0 {
        rows.drop_first()
    } else {
        rows
    }
}

/// A lazy sequence of rows that is read once, front to back. A stage is
/// described by the rows it still hands out and by the failure, if any,
/// that follows them.
pub trait Flow {
    type Output: DeepView;

    /// What the stage needs to hold in order to work.
    spec fn wf(&self) -> bool;

    /// The rows that the stage still hands out, in order.
    spec fn rows(&self) -> Seq<<Self::Output as DeepView>::V>;

    /// The failure that ends the stage after its rows, if it does not end
    /// well.
    spec fn failure(&self) -> Option<ErrorContent>;

    /// The rows of a stage can be counted.
    proof fn lemma_rows_countable(&self)
        requires
            self.wf(),
        ensures
            self.rows().len() <= usize::MAX,
    ;

    /// Hands out the next row, the end of the sequence, or the failure that
    /// ends the statement. After a failure the stage is used up.
    fn next_tuple(&mut self) -> (r: Result<Option<Self::Output>, QueryExecutionError>)
        requires
            old(self).wf(),
        ensures
            outcome(r) == next_outcome(old(self).rows(), old(self).failure()),
            r is Ok ==> final(self).wf() && final(self).rows() == rows_after(old(self).rows())
                && final(self).failure() == old(self).failure(),
    ;
}

/// The rows that a stage makes of the rows of the stage before it: each row
/// goes through `step` together with its number, counted from `done + 1`,
/// up to the first row on which `step` fails.
pub open spec fn mapped_rows<A, B>(
    rows: Seq<A>,
    step: spec_fn(A, nat) -> Result<B, ErrorContent>,
    done: nat,
) -> Seq<B>
    decreases rows.len(),
{
    if rows.len() == 0 {
        Seq::<B>::empty()
    } else {
        match step(rows[0], done + 1) {
            Ok(row) => seq![row] + mapped_rows(rows.drop_first(), step, done + 1),
            Err(_) => Seq::<B>::empty(),
        }
    }
}

/// The failure of a stage that maps rows: that of the first row on which
/// `step` fails, or else the failure of the stage before it.
pub open spec fn mapped_failure<A, B>(
    rows: Seq<A>,
    failure: Option<ErrorContent>,
    step: spec_fn(A, nat) -> Result<B, ErrorContent>,
    done: nat,
) -> Option<ErrorContent>
    decreases rows.len(),
{
    if rows.len() == 0 {
        failure
    } else {
        match step(rows[0], done + 1) {
            Ok(_) => mapped_failure(rows.drop_first(), failure, step, done + 1),
            Err(error) => Some(error),
        }
    }
}

/// A mapping stage hands out at most as many rows as it takes in.
pub proof fn lemma_mapped_rows_len<A, B>(
    rows: Seq<A>,
    step: spec_fn(A, nat) -> Result<B, ErrorContent>,
    done: nat,
)
    ensures
        mapped_rows(rows, step, done).len() <= rows.len(),
    decreases rows.len(),
{
    if rows.len() > 0 {
        lemma_mapped_rows_len(rows.drop_first(), step, done + 1);
    }
}

/// The rows that a mapping stage hands out are what `step` makes of the
/// rows it takes in, position by position, each with its number.
pub proof fn lemma_mapped_rows_image<A, B>(
    rows: Seq<A>,
    step: spec_fn(A, nat) -> Result<B, ErrorContent>,
    done: nat,
    i: int,
)
    requires
        0 <= i < mapped_rows(rows, step, done).len(),
    ensures
        i < rows.len(),
        step(rows[i], (done + 1 + i) as nat) == Ok::<B, ErrorContent>(
            mapped_rows(rows, step, done)[i],
        ),
    decreases rows.len(),
{
    if i > 0 {
        let rest = rows.drop_first();
        lemma_mapped_rows_image(rest, step, done + 1, i - 1);
        assert(rest[i - 1] == rows[i]);
    }
}

/// Where `step` takes the rows before position `at` and fails on the row
/// at that position, the stage hands out exactly the rows before it and
/// then fails with the failure of that row, whatever rows follow and
/// however the stage before it ends.
pub proof fn lemma_mapped_until_failure<A, B>(
    rows: Seq<A>,
    failure: Option<ErrorContent>,
    step: spec_fn(A, nat) -> Result<B, ErrorContent>,
    done: nat,
    at: int,
)
    requires
        0 <= at < rows.len(),
        forall|i: int| 0 <= i < at ==> (#[trigger] step(rows[i], (done + 1 + i) as nat)) is Ok,
        step(rows[at], (done + 1 + at) as nat) is Err,
    ensures
        mapped_rows(rows, step, done).len() == at,
        mapped_failure(rows, failure, step, done) == Some(
            step(rows[at], (done + 1 + at) as nat)->Err_0,
        ),
    decreases rows.len(),
{
    if at > 0 {
        let rest = rows.drop_first();
        assert(step(rows[0], (done + 1 + 0) as nat) is Ok);
        assert forall|i: int| 0 <= i < at - 1 implies (#[trigger] step(
            rest[i],
            (done + 1 + 1 + i) as nat,
        )) is Ok by {
            assert(rest[i] == rows[i + 1]);
            assert(step(rows[i + 1], (done + 1 + (i + 1)) as nat) is Ok);
        }
        assert(rest[at - 1] == rows[at]);
        lemma_mapped_until_failure(rest, failure, step, done + 1, at - 1);
    }
}

/// Where `step` takes every row, the stage hands out one row for each row
/// it takes in and ends as the stage before it does.
pub proof fn lemma_mapped_without_failure<A, B>(
    rows: Seq<A>,
    failure: Option<ErrorContent>,
    step: spec_fn(A, nat) -> Result<B, ErrorContent>,
    done: nat,
)
    requires
        forall|i: int|
            0 <= i < rows.len() ==> (#[trigger] step(rows[i], (done + 1 + i) as nat)) is Ok,
    ensures
        mapped_rows(rows, step, done).len() == rows.len(),
        mapped_failure(rows, failure, step, done) == failure,
    decreases rows.len(),
{
    if rows.len() > 0 {
        let rest = rows.drop_first();
        assert(step(rows[0], (done + 1 + 0) as nat) is Ok);
        assert forall|i: int| 0 <= i < rest.len() implies (#[trigger] step(
            rest[i],
            (done + 1 + 1 + i) as nat,
        )) is Ok by {
            assert(rest[i] == rows[i + 1]);
            assert(step(rows[i + 1], (done + 1 + (i + 1)) as nat) is Ok);
        }
        lemma_mapped_without_failure(rest, failure, step, done + 1);
    }
}

/// Where `step` does not look at the number of a row, the number that a
/// stage starts to count from does not matter.
pub proof fn lemma_mapped_whatever_the_count<A, B>(
    rows: Seq<A>,
    failure: Option<ErrorContent>,
    step: spec_fn(A, nat) -> Result<B, ErrorContent>,
    a: nat,
    b: nat,
)
    requires
        forall|row: A, m: nat, n: nat| #[trigger] step(row, m) == #[trigger] step(row, n),
    ensures
        mapped_rows(rows, step, a) == mapped_rows(rows, step, b),
        mapped_failure(rows, failure, step, a) == mapped_failure(rows, failure, step, b),
    decreases rows.len(),
{
    if rows.len() > 0 {
        assert(step(rows[0], a + 1) == step(rows[0], b + 1));
        lemma_mapped_whatever_the_count(rows.drop_first(), failure, step, a + 1, b + 1);
    }
}

/// The rows in the opposite order.
pub(crate) fn reversed<T: DeepView>(values: Vec<T>) -> (r: Vec<T>)
    ensures
        r@.len() == values@.len(),
        forall|i: int|
            0 <= i < r@.len() ==> (#[trigger] r@[i]).deep_view() == values@[values@.len() - 1
                - i].deep_view(),
{
    let mut values = values;
    let ghost all = values@;
    let mut rows: Vec<T> = Vec::new();
    while values.len() > 0
        invariant
            rows@.len() + values@.len() == all.len(),
            forall|i: int| 0 <= i < values@.len() ==> #[trigger] values@[i] == all[i],
            forall|i: int| 0 <= i < rows@.len() ==> #[trigger] rows@[i] == all[all.len() - 1 - i],
        decreases values@.len(),
    {
        let row = values.pop().unwrap();
        rows.push(row);
    }
    rows
}

/// The rows that a stack of rows hands out, top first.
pub open spec fn stacked_rows<T: DeepView>(stack: Seq<T>) -> Seq<T::V> {
    Seq::new(stack.len(), |i: int| stack[stack.len() - 1 - i].deep_view())
}

/// Takes the top row off a stack of rows.
fn take_top<T: DeepView>(stack: &mut Vec<T>) -> (r: Option<T>)
    ensures
        r.deep_view() == next_outcome(stacked_rows(old(stack)@), None)->Ok_0,
        stacked_rows(final(stack)@) == rows_after(stacked_rows(old(stack)@)),
{
    let r = stack.pop();
    proof {
        assert(stacked_rows(stack@) =~= rows_after(stacked_rows(old(stack)@)));
    }
    r
}

/// The source of an insert: the rows of the statement, as they are and in
/// their order.
pub struct StaticValues {
    /// The rows that are left, last row first.
    rows: Vec<Vec<Option<StaticTypedTree>>>,
}

impl StaticValues {
    /// The source that hands out the given rows.
    pub fn from(values: Vec<Vec<Option<StaticTypedTree>>>) -> (r: StaticValues)
        ensures
            r.wf(),
            r.rows() == values.deep_view(),
            r.failure() is None,
    {
        let rows = reversed(values);
        proof {
            assert(stacked_rows(rows@) =~= values.deep_view());
        }
        StaticValues { rows }
    }
}

impl Flow for StaticValues {
    type Output = Vec<Option<StaticTypedTree>>;

    open spec fn wf(&self) -> bool {
        true
    }

    closed spec fn rows(&self) -> Seq<Seq<Option<TypedTree>>> {
        stacked_rows(self.rows@)
    }

    open spec fn failure(&self) -> Option<ErrorContent> {
        None
    }

    proof fn lemma_rows_countable(&self) {
        assert(self.rows.len() == self.rows@.len());
    }

    fn next_tuple(&mut self) -> (r: Result<Option<Self::Output>, QueryExecutionError>) {
        Ok(take_top(&mut self.rows))
    }
}

/// The source of a select or an update: the rows that a table holds, as
/// values and in their order.
pub struct StoredValues {
    /// The rows that are left, last row first.
    rows: Vec<Vec<Option<TypedValue>>>,
}

impl StoredValues {
    /// The source that hands out the given rows.
    pub fn from(values: Vec<Vec<Option<TypedValue>>>) -> (r: StoredValues)
        ensures
            r.wf(),
            r.rows() == values.deep_view(),
            r.failure() is None,
    {
        let rows = reversed(values);
        proof {
            assert(stacked_rows(rows@) =~= values.deep_view());
        }
        StoredValues { rows }
    }
}

impl Flow for StoredValues {
    type Output = Vec<Option<TypedValue>>;

    open spec fn wf(&self) -> bool {
        true
    }

    closed spec fn rows(&self) -> Seq<Seq<Option<TypedContent>>> {
        stacked_rows(self.rows@)
    }

    open spec fn failure(&self) -> Option<ErrorContent> {
        None
    }

    proof fn lemma_rows_countable(&self) {
        assert(self.rows.len() == self.rows@.len());
    }

    fn next_tuple(&mut self) -> (r: Result<Option<Self::Output>, QueryExecutionError>) {
        Ok(take_top(&mut self.rows))
    }
}

} // verus!

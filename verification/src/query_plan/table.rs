//! The table and the writer: the stage that packs validated rows and hands
//! them to a table, and the way back from packed rows to values.

use crate::binary::{
    lemma_row_round_trip, row_decoding, row_encodable, row_encoding, Binary, Datum, DatumValue,
};
use crate::query_plan::flow::{reversed, Flow};
use crate::query_result::{outcome, ErrorContent, QueryExecutionError};
use crate::typed_values::{TypedContent, TypedValue};
use vstd::prelude::*;

verus! {

/// The table that rows are written to: it takes one packed row at a time
/// and keeps the rows in the order in which they came.
pub trait SqlTable {
    /// The packed rows that were written to the table, in order.
    spec fn written(&self) -> Seq<Seq<u8>>;

    /// Writes one packed row.
    fn write(&mut self, row: Binary)
        ensures
            final(self).written() == old(self).written().push(row@),
    ;

    /// Puts a packed row in the place of the row at the given position.
    fn rewrite(&mut self, index: usize, row: Binary)
        requires
            index < old(self).written().len(),
        ensures
            final(self).written() == old(self).written().update(index as int, row@),
    ;
}

/// A table that keeps its rows in memory.
#[derive(Debug, PartialEq)]
pub struct InMemoryTable {
    rows: Vec<Binary>,
}

impl InMemoryTable {
    /// The empty table.
    pub fn new() -> (r: InMemoryTable)
        ensures
            r.written() == Seq::<Seq<u8>>::empty(),
    {
        let r = InMemoryTable { rows: Vec::new() };
        proof {
            assert(r.rows.deep_view() =~= Seq::<Seq<u8>>::empty());
        }
        r
    }

    /// The rows of the table, in the order in which they were written.
    pub fn rows(&self) -> (r: &Vec<Binary>)
        ensures
            r.deep_view() == self.written(),
    {
        &self.rows
    }
}

impl SqlTable for InMemoryTable {
    closed spec fn written(&self) -> Seq<Seq<u8>> {
        self.rows.deep_view()
    }

    fn write(&mut self, row: Binary) {
        self.rows.push(row);
        proof {
            assert(self.rows.deep_view() =~= old(self).rows.deep_view().push(row@));
        }
    }

    fn rewrite(&mut self, index: usize, row: Binary) {
        let ghost content = row@;
        self.rows[index] = row;
        proof {
            assert(self.rows.deep_view() =~= old(self).rows.deep_view().update(
                index as int,
                content,
            ));
        }
    }
}

/// The cell that is stored for a cell of a validated row: the null marker
/// for an absent cell.
pub open spec fn stored_cell(cell: Option<DatumValue>) -> DatumValue {
    match cell {
        Some(datum) => datum,
        None => DatumValue::Null,
    }
}

/// The cells that are stored for a validated row.
pub open spec fn stored_row(row: Seq<Option<DatumValue>>) -> Seq<DatumValue> {
    row.map_values(|cell: Option<DatumValue>| stored_cell(cell))
}

/// The packed rows that are written for a sequence of validated rows.
pub open spec fn packed_rows(rows: Seq<Seq<Option<DatumValue>>>) -> Seq<Seq<u8>> {
    rows.map_values(|row: Seq<Option<DatumValue>>| row_encoding(stored_row(row)))
}

/// Puts the null marker in the place of each absent cell.
pub fn fill_nulls(row: Vec<Option<Datum>>) -> (r: Vec<Datum>)
    ensures
        r.deep_view() == stored_row(row.deep_view()),
{
    let ghost cells = row.deep_view();
    let mut stack = reversed(row);
    let mut out: Vec<Datum> = Vec::new();
    while stack.len() > 0
        invariant
            out@.len() + stack@.len() == cells.len(),
            forall|i: int|
                0 <= i < stack@.len() ==> (#[trigger] stack@[i]).deep_view() == cells[cells.len()
                    - 1 - i],
            forall|i: int| 0 <= i < out@.len() ==> (#[trigger] out@[i])@ == stored_cell(cells[i]),
        decreases stack@.len(),
    {
        let cell = stack.pop().unwrap();
        out.push(
            match cell {
                Some(datum) => datum,
                None => Datum::from_null(),
            },
        );
    }
    proof {
        assert(out.deep_view() =~= stored_row(cells));
    }
    out
}

/// The writer: packs each validated row and hands it to the table.
pub struct TableInPlan<S: Flow<Output = Vec<Option<Datum>>>, T: SqlTable> {
    source: S,
    table: T,
}

impl<S: Flow<Output = Vec<Option<Datum>>>, T: SqlTable> TableInPlan<S, T> {
    /// What the writer needs to hold in order to work.
    pub closed spec fn wf(&self) -> bool {
        self.source.wf()
    }

    /// The validated rows that are still to be written.
    pub closed spec fn pending(&self) -> Seq<Seq<Option<DatumValue>>> {
        self.source.rows()
    }

    /// The failure that ends the statement after those rows, if any.
    pub closed spec fn failure(&self) -> Option<ErrorContent> {
        self.source.failure()
    }

    /// The packed rows that the table holds.
    pub closed spec fn written(&self) -> Seq<Seq<u8>> {
        self.table.written()
    }

    /// The writer that hands the rows of `source` to `table`.
    pub fn new(source: S, table: T) -> (r: TableInPlan<S, T>)
        requires
            source.wf(),
        ensures
            r.wf(),
            r.pending() == source.rows(),
            r.failure() == source.failure(),
            r.written() == table.written(),
    {
        TableInPlan { source, table }
    }

    /// Writes the rows of the source to the table, in their order, until
    /// the source ends or fails. Gives the number of rows written when the
    /// source ends, and the failure of the source when it fails; the rows
    /// before the failure stay written.
    pub fn execute(&mut self) -> (r: Result<usize, QueryExecutionError>)
        requires
            old(self).wf(),
        ensures
            final(self).written() == old(self).written() + packed_rows(old(self).pending()),
            outcome(r) == match old(self).failure() {
                Some(error) => Err::<usize, ErrorContent>(error),
                None => Ok(old(self).pending().len() as usize),
            },
            old(self).pending().len() <= usize::MAX,
    {
        let ghost rows = self.source.rows();
        let ghost failure = self.source.failure();
        let ghost written = self.table.written();
        let mut len: usize = 0;
        proof {
            self.source.lemma_rows_countable();
            assert(rows.skip(0) =~= rows);
            assert(written + packed_rows(rows.take(0)) =~= written);
        }
        loop
            invariant
                rows == old(self).pending(),
                failure == old(self).failure(),
                written == old(self).written(),
                self.source.wf(),
                self.source.failure() == failure,
                len <= rows.len() <= usize::MAX,
                self.source.rows() == rows.skip(len as int),
                self.table.written() == written + packed_rows(rows.take(len as int)),
            decreases rows.len() - len,
        {
            match self.source.next_tuple() {
                Err(error) => {
                    proof {
                        assert(rows.take(len as int) =~= rows);
                    }
                    return Err(error);
                },
                Ok(None) => {
                    proof {
                        assert(rows.take(len as int) =~= rows);
                    }
                    return Ok(len);
                },
                Ok(Some(data)) => {
                    let cells = fill_nulls(data);
                    let slice = cells.as_slice();
                    proof {
                        assert(slice.deep_view() =~= cells.deep_view());
                    }
                    self.table.write(Binary::pack(slice));
                    proof {
                        assert(rows.skip(len as int)[0] == rows[len as int]);
                        assert(rows.skip(len as int).drop_first() =~= rows.skip(len + 1));
                        assert(rows.take(len + 1) =~= rows.take(len as int).push(rows[len as int]));
                        assert(packed_rows(rows.take(len + 1)) =~= packed_rows(
                            rows.take(len as int),
                        ).push(row_encoding(stored_row(rows[len as int]))));
                    }
                    len += 1;
                },
            }
        }
    }

    /// Puts the rows of the source in the place of the first rows of the
    /// table, in their order, until the source ends or fails. Gives the
    /// number of rows rewritten when the source ends, and the failure of
    /// the source when it fails; the rows before the failure stay
    /// rewritten, the others are as they were.
    pub fn rewrite(&mut self) -> (r: Result<usize, QueryExecutionError>)
        requires
            old(self).wf(),
            old(self).pending().len() <= old(self).written().len(),
        ensures
            final(self).written() == packed_rows(old(self).pending()) + old(self).written().skip(
                old(self).pending().len() as int,
            ),
            outcome(r) == match old(self).failure() {
                Some(error) => Err::<usize, ErrorContent>(error),
                None => Ok(old(self).pending().len() as usize),
            },
            old(self).pending().len() <= usize::MAX,
    {
        let ghost rows = self.source.rows();
        let ghost failure = self.source.failure();
        let ghost written = self.table.written();
        let mut len: usize = 0;
        proof {
            self.source.lemma_rows_countable();
            assert(rows.skip(0) =~= rows);
            assert(packed_rows(rows.take(0)) + written.skip(0) =~= written);
        }
        loop
            invariant
                rows == old(self).pending(),
                failure == old(self).failure(),
                written == old(self).written(),
                rows.len() <= written.len(),
                self.source.wf(),
                self.source.failure() == failure,
                len <= rows.len() <= usize::MAX,
                self.source.rows() == rows.skip(len as int),
                self.table.written() == packed_rows(rows.take(len as int)) + written.skip(
                    len as int,
                ),
            decreases rows.len() - len,
        {
            match self.source.next_tuple() {
                Err(error) => {
                    proof {
                        assert(rows.take(len as int) =~= rows);
                    }
                    return Err(error);
                },
                Ok(None) => {
                    proof {
                        assert(rows.take(len as int) =~= rows);
                    }
                    return Ok(len);
                },
                Ok(Some(data)) => {
                    let cells = fill_nulls(data);
                    let slice = cells.as_slice();
                    proof {
                        assert(slice.deep_view() =~= cells.deep_view());
                    }
                    self.table.rewrite(len, Binary::pack(slice));
                    proof {
                        assert(rows.skip(len as int)[0] == rows[len as int]);
                        assert(rows.skip(len as int).drop_first() =~= rows.skip(len + 1));
                        assert(rows.take(len + 1) =~= rows.take(len as int).push(rows[len as int]));
                        assert(packed_rows(rows.take(len + 1)) =~= packed_rows(
                            rows.take(len as int),
                        ).push(row_encoding(stored_row(rows[len as int]))));
                        assert(self.table.written() =~= packed_rows(rows.take(len + 1))
                            + written.skip(len + 1));
                    }
                    len += 1;
                },
            }
        }
    }

    /// The table, with what was written to it.
    pub fn into_table(self) -> (r: T)
        ensures
            r.written() == self.written(),
    {
        self.table
    }
}

/// The values that the cells of a stored row hold, the null marker giving
/// an absent value.
pub open spec fn row_values(cells: Seq<DatumValue>) -> Seq<Option<TypedContent>> {
    cells.map_values(|cell: DatumValue| TypedContent::of_cell(cell))
}

/// The values that a packed row holds; none where the bytes are not a
/// packed row.
pub open spec fn decoded_row(bytes: Seq<u8>) -> Option<Seq<Option<TypedContent>>> {
    match row_decoding(bytes) {
        Some(cells) => Some(row_values(cells)),
        None => None,
    }
}

/// What is written for a validated row decodes to the values of its cells,
/// an absent cell to an absent value.
pub proof fn lemma_written_row_decodes(row: Seq<Option<DatumValue>>)
    requires
        row_encodable(stored_row(row)),
    ensures
        decoded_row(row_encoding(stored_row(row))) == Some(row_values(stored_row(row))),
        row_values(stored_row(row)).len() == row.len(),
        forall|i: int|
            0 <= i < row.len() ==> #[trigger] row_values(stored_row(row))[i] == match row[i] {
                Some(cell) => TypedContent::of_cell(cell),
                None => None,
            },
{
    lemma_row_round_trip(stored_row(row));
}

/// Unpacks a stored row into values.
pub fn decode_row(row: &Binary) -> (r: Option<Vec<Option<TypedValue>>>)
    ensures
        r.deep_view() == decoded_row(row@),
{
    let cells = match row.unpack() {
        Some(cells) => cells,
        None => {
            return None;
        },
    };
    let mut values: Vec<Option<TypedValue>> = Vec::new();
    let mut i: usize = 0;
    while i < cells.len()
        invariant
            i <= cells@.len(),
            values@.len() == i,
            forall|j: int|
                0 <= j < i ==> (#[trigger] values@[j]).deep_view() == TypedContent::of_cell(
                    cells@[j]@,
                ),
        decreases cells@.len() - i,
    {
        values.push(TypedValue::from_datum(&cells[i]));
        i += 1;
    }
    proof {
        assert(values.deep_view() =~= row_values(cells.deep_view()));
    }
    Some(values)
}

impl InMemoryTable {
    /// The rows of the table as values, in the order in which they were
    /// written; none where a row of the table is not a packed row.
    pub fn scan(&self) -> (r: Option<Vec<Vec<Option<TypedValue>>>>)
        ensures
            r is Some <==> forall|i: int|
                0 <= i < self.written().len() ==> decoded_row(#[trigger] self.written()[i]) is Some,
            r matches Some(rows) ==> rows.deep_view() == self.written().map_values(
                |bytes: Seq<u8>| decoded_row(bytes)->0,
            ),
    {
        let mut rows: Vec<Vec<Option<TypedValue>>> = Vec::new();
        let mut i: usize = 0;
        let ghost written = self.written();
        while i < self.rows.len()
            invariant
                i <= self.rows@.len(),
                rows@.len() == i,
                written == self.rows.deep_view(),
                written.len() == self.rows@.len(),
                forall|j: int|
                    0 <= j < i ==> decoded_row(#[trigger] written[j]) == Some(
                        rows@[j].deep_view(),
                    ),
            decreases self.rows@.len() - i,
        {
            proof {
                assert(written[i as int] == self.rows@[i as int]@);
            }
            match decode_row(&self.rows[i]) {
                Some(values) => {
                    rows.push(values);
                },
                None => {
                    return None;
                },
            }
            i += 1;
        }
        proof {
            assert(rows.deep_view() =~= written.map_values(|bytes: Seq<u8>| decoded_row(bytes)->0));
        }
        Some(rows)
    }
}

} // verus!

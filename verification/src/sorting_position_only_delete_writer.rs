//! A sorting position-delete writer for unordered row-level delete input.
//!
//! The writer retains one entry per unique (file_path, position) pair, then emits rows in lexical
//! path order and ascending position order. Its memory use is O(unique paths + unique positions);
//! spilling is intentionally left to a future implementation.
use crate::arrow_batch::{contents, row_batch, text_bytes, ArrowBatch};
use crate::batch::{
    any_number_null, any_text_null, has_null, optional_texts, BatchModel, Column, ColumnModel,
    RowBatch,
};
use crate::error::{invalid, unexpected, Error, ErrorKind, ErrorModel};
use crate::metadata::{DataFile, PartitionKey};
use crate::position_delete_writer::{
    delete_batch, inner_closed, named_paths, row_paths, row_views, PositionDeleteFileWriter,
    PositionDeleteFileWriterBuilder,
};
use crate::position_map::{next_batch_len, row_batches, PositionMap, SortedDeletes};
use crate::row_order::strictly_sorted_rows;
use crate::sorted_position_delete_writer::has_delete_columns;
use crate::text::{decimal, signed_text};
use vstd::prelude::*;
use vstd::string::*;

verus! {

/// Number of sorted position-delete rows sent to the underlying writer per Arrow batch.
pub const DEFAULT_FLUSH_ROWS: usize = 8192;

/// Builder for [`SortingPositionOnlyDeleteWriter`].
#[derive(Debug)]
pub struct SortingPositionOnlyDeleteWriterBuilder<R> {
    inner: R,
    flush_rows: usize,
}

/// The error for batches that may hold no row.
pub open spec fn zero_flush_rows() -> ErrorModel {
    invalid("Sorting position-only delete writer flush_rows must be greater than zero."@)
}

impl<R> SortingPositionOnlyDeleteWriterBuilder<R> {
    /// The builder of the rolling file writer.
    pub closed spec fn spec_inner(&self) -> R {
        self.inner
    }

    /// The largest number of rows in a batch.
    pub closed spec fn spec_flush_rows(&self) -> usize {
        self.flush_rows
    }

    /// Wraps a rolling position-delete writer with sorting and de-duplication.
    ///
    /// The rolling writer must use the schema of position delete files.
    pub fn new(inner: R) -> (builder: Self)
        ensures
            builder.spec_inner() == inner,
            builder.spec_flush_rows() == DEFAULT_FLUSH_ROWS,
    {
        SortingPositionOnlyDeleteWriterBuilder { inner, flush_rows: DEFAULT_FLUSH_ROWS }
    }

    /// Sets the maximum number of sorted position-delete rows sent per Arrow batch.
    ///
    /// This only controls buffering at the Arrow boundary; it does not change file rolling or
    /// duplicate semantics.
    pub fn with_flush_rows(self, flush_rows: usize) -> (builder: Self)
        ensures
            builder.spec_inner() == self.spec_inner(),
            builder.spec_flush_rows() == flush_rows,
    {
        SortingPositionOnlyDeleteWriterBuilder { inner: self.inner, flush_rows }
    }

    /// The builder of the rolling file writer.
    pub fn inner(&self) -> (inner: &R)
        ensures
            *inner == self.spec_inner(),
    {
        &self.inner
    }

    /// Refuses batches that may hold no row. A rolling file writer is built only where this passes.
    pub fn ensure_flush_rows(&self) -> (result: Result<(), Error>)
        ensures
            match result {
                Ok(()) => self.spec_flush_rows() > 0,
                Err(error) => self.spec_flush_rows() == 0 && error@ == zero_flush_rows(),
            },
    {
        if self.flush_rows == 0 {
            return Err(
                Error::new(
                    ErrorKind::DataInvalid,
                    "Sorting position-only delete writer flush_rows must be greater than zero.".to_owned(),
                ),
            );
        }
        Ok(())
    }

    /// Builds a writer for the given partition. `writer` is a rolling file writer that
    /// [`inner`][Self::inner] built.
    pub fn build<W, P>(&self, writer: W, partition_key: Option<PartitionKey<P>>) -> (result: Result<
        SortingPositionOnlyDeleteWriter<W, P>,
        Error,
    >)
        ensures
            match result {
                Ok(result) => {
                    &&& self.spec_flush_rows() > 0
                    &&& result.spec_flush_rows() == self.spec_flush_rows()
                    &&& result.deletes() == Set::<(Seq<char>, i64)>::empty()
                    &&& result.spec_inner() matches Some(inner)
                    &&& inner.spec_inner() == Some(writer)
                    &&& inner.spec_partition_key() == partition_key
                    &&& inner.reference() is Nothing
                },
                Err(error) => self.spec_flush_rows() == 0 && error@ == zero_flush_rows(),
            },
    {
        match self.ensure_flush_rows() {
            Ok(()) => {},
            Err(error) => {
                return Err(error);
            },
        }
        let inner = PositionDeleteFileWriterBuilder::new(&self.inner).build(writer, partition_key);
        Ok(
            SortingPositionOnlyDeleteWriter {
                inner: Some(inner),
                positions: PositionMap::new(),
                flush_rows: self.flush_rows,
                closed: false,
            },
        )
    }
}

/// Buffers unordered position deletes, then writes sorted and de-duplicated delete records.
///
/// Repeated `(file_path, position)` pairs are idempotent and are emitted once.
///
/// The in-memory index is O(unique paths + unique positions). Each emitted Arrow batch is bounded
/// to `flush_rows` records, while the path map retains all unique positions until close so
/// duplicates are removed even when they arrive in different batches.
#[derive(Debug)]
pub struct SortingPositionOnlyDeleteWriter<W, P> {
    inner: Option<PositionDeleteFileWriter<W, P>>,
    positions: PositionMap,
    flush_rows: usize,
    closed: bool,
}

/// What is to be done next to close a sorting writer.
#[derive(Debug)]
pub enum ClosingStep {
    /// Write these rows.
    Write(Vec<(String, i64)>),
    /// Close the writer that takes the rows.
    Close,
}

/// A sorting writer that is being closed: the run of rows to write, the writer that takes them, and
/// the error of the write that failed, if one did.
#[derive(Debug)]
pub struct ClosingSort<W, P> {
    run: SortedDeletes,
    writer: PositionDeleteFileWriter<W, P>,
    failure: Option<Error>,
}

impl<W, P> ClosingSort<W, P> {
    /// The rows that are still to be written.
    pub closed spec fn remaining(&self) -> Seq<(Seq<char>, i64)> {
        self.run.remaining()
    }

    /// The largest number of rows in a batch.
    pub closed spec fn flush_rows(&self) -> usize {
        self.run.flush_rows()
    }

    /// The writer that takes the rows.
    pub closed spec fn spec_writer(&self) -> PositionDeleteFileWriter<W, P> {
        self.writer
    }

    /// The error of the write that failed, if one did.
    pub closed spec fn failure(&self) -> Option<Error> {
        self.failure
    }

    /// The writer that takes the rows.
    pub fn writer_mut(&mut self) -> (writer: &mut PositionDeleteFileWriter<W, P>)
        ensures
            *writer == old(self).spec_writer(),
            final(self).spec_writer() == *final(writer),
            final(self).remaining() == old(self).remaining(),
            final(self).flush_rows() == old(self).flush_rows(),
            final(self).failure() == old(self).failure(),
    {
        &mut self.writer
    }

    /// Takes the outcome of the last write, which is `Ok` before the first one, and tells what is to
    /// be done next: to write the next rows, or to close the writer that takes them. Once a write
    /// has failed, nothing more is written.
    pub fn next_step(&mut self, written: Result<(), Error>) -> (step: ClosingStep)
        ensures
            final(self).failure() == (if old(self).failure() is Some {
                old(self).failure()
            } else {
                match written {
                    Ok(()) => None,
                    Err(error) => Some(error),
                }
            }),
            ({
                let n = next_batch_len(old(self).remaining().len(), old(self).flush_rows() as nat) as int;
                if final(self).failure() is Some {
                    step is Close && final(self).remaining() == old(self).remaining()
                } else {
                    &&& match step {
                        ClosingStep::Write(rows) => n > 0 && row_views(rows@) == old(
                            self,
                        ).remaining().take(n),
                        ClosingStep::Close => n == 0,
                    }
                    &&& final(self).remaining() == old(self).remaining().skip(n)
                }
            }),
            final(self).flush_rows() == old(self).flush_rows(),
            final(self).spec_writer() == old(self).spec_writer(),
    {
        if self.failure.is_some() {
            return ClosingStep::Close;
        }
        match written {
            Ok(()) => match self.run.next_rows() {
                Some(rows) => ClosingStep::Write(rows),
                None => ClosingStep::Close,
            },
            Err(error) => {
                self.failure = Some(error);
                ClosingStep::Close
            },
        }
    }

    /// Builds the record batch of the next rows of a run and lets the writer take note of it. The
    /// batch is to be handed to the rolling file writer. There is none where there are no rows.
    pub fn flush_batch(&mut self, rows: &Vec<(String, i64)>) -> (result: Result<
        Option<ArrowBatch>,
        Error,
    >)
        requires
            text_bytes(row_paths(row_views(rows@))) <= i32::MAX,
        ensures
            match result {
                Ok(None) => rows.len() == 0,
                Ok(Some(batch)) => {
                    &&& rows.len() > 0
                    &&& old(self).spec_writer().spec_inner() is Some
                    &&& contents(batch) == delete_batch(row_views(rows@))
                },
                Err(error) => {
                    &&& rows.len() > 0
                    &&& old(self).spec_writer().spec_inner() is None
                    &&& error@ == inner_closed()
                },
            },
            final(self).spec_writer().reference() == old(self).spec_writer().reference().with_paths(
                named_paths(row_views(rows@)),
            ),
            final(self).spec_writer().spec_inner() == old(self).spec_writer().spec_inner(),
            final(self).spec_writer().spec_partition_key() == old(
                self,
            ).spec_writer().spec_partition_key(),
            final(self).remaining() == old(self).remaining(),
            final(self).flush_rows() == old(self).flush_rows(),
            final(self).failure() == old(self).failure(),
    {
        if rows.len() == 0 {
            assert(named_paths(row_views(rows@)).len() == 0);
            return Ok(None);
        }
        match self.writer.write_rows(rows) {
            Ok(batch) => Ok(Some(batch)),
            Err(error) => Err(error),
        }
    }

    /// The outcome of closing, given what closing the writer that takes the rows gave: the files,
    /// unless a write failed. Output that is only written in part is not returned to the caller.
    pub fn outcome<F>(self, files: Result<Vec<DataFile<F, P>>, Error>) -> (result: Result<
        Vec<DataFile<F, P>>,
        Error,
    >)
        ensures
            match self.failure() {
                None => result == files,
                Some(error) => result == Err::<Vec<DataFile<F, P>>, Error>(error),
            },
    {
        match self.failure {
            None => files,
            Some(error) => Err(error),
        }
    }
}

/// The batches that are written, given the outcome of each write so far: no further batch once a
/// write has failed.
pub open spec fn sent_batches(
    rows: Seq<(Seq<char>, i64)>,
    flush_rows: nat,
    outcomes: Seq<Result<(), ErrorModel>>,
) -> Seq<Seq<(Seq<char>, i64)>>
    decreases rows.len(),
{
    if rows.len() == 0 || flush_rows == 0 {
        Seq::empty()
    } else {
        let n = next_batch_len(rows.len(), flush_rows) as int;
        let first = seq![rows.take(n)];
        if outcomes.len() == 0 || outcomes[0] is Err {
            first
        } else {
            first + sent_batches(rows.skip(n), flush_rows, outcomes.drop_first())
        }
    }
}

/// Closing writes the batches of the run one by one: where every write succeeds all of them, and
/// where write `failed` is the first that fails, those up to it and no further one.
pub proof fn lemma_nothing_is_sent_after_a_failure(
    rows: Seq<(Seq<char>, i64)>,
    flush_rows: nat,
    outcomes: Seq<Result<(), ErrorModel>>,
    failed: int,
)
    requires
        flush_rows > 0,
        0 <= failed <= outcomes.len(),
        forall|i: int| 0 <= i < failed ==> (#[trigger] outcomes[i]) is Ok,
        failed < outcomes.len() ==> outcomes[failed] is Err,
    ensures
        sent_batches(rows, flush_rows, outcomes) == (if failed < row_batches(rows, flush_rows).len() {
            row_batches(rows, flush_rows).take(failed + 1)
        } else {
            row_batches(rows, flush_rows)
        }),
    decreases rows.len(),
{
    if rows.len() > 0 {
        let n = next_batch_len(rows.len(), flush_rows) as int;
        let batches = row_batches(rows, flush_rows);
        let rest = row_batches(rows.skip(n), flush_rows);
        assert(batches == seq![rows.take(n)] + rest);
        if failed == 0 {
            assert(batches.take(1) == seq![rows.take(n)]);
        } else {
            let later = outcomes.drop_first();
            assert(outcomes[0] is Ok);
            assert forall|i: int| 0 <= i < failed - 1 implies (#[trigger] later[i]) is Ok by {
                assert(outcomes[i + 1] is Ok);
            }
            lemma_nothing_is_sent_after_a_failure(rows.skip(n), flush_rows, later, failed - 1);
            if failed < batches.len() {
                assert(batches.take(failed + 1) == seq![rows.take(n)] + rest.take(failed));
            }
        }
    }
}

/// The error for a writer that was closed before.
pub open spec fn sorting_writer_closed() -> ErrorModel {
    unexpected("Sorting position-only delete writer is already closed."@)
}

/// The error for a single row with a negative position.
pub open spec fn negative_row(position: i64) -> ErrorModel {
    invalid(
        "Position delete row position must be non-negative, got "@ + decimal(position as int) + "."@,
    )
}

/// Row `i` of two columns is `row`.
pub open spec fn row_at(
    paths: Seq<Option<Seq<char>>>,
    positions: Seq<Option<i64>>,
    i: int,
    row: (Seq<char>, i64),
) -> bool {
    paths[i] == Some(row.0) && positions[i] == Some(row.1)
}

/// The rows of two columns, as a set.
pub open spec fn column_rows(paths: Seq<Option<Seq<char>>>, positions: Seq<Option<i64>>) -> Set<
    (Seq<char>, i64),
> {
    Set::new(
        |row: (Seq<char>, i64)|
            exists|i: int| 0 <= i < paths.len() && #[trigger] row_at(paths, positions, i, row),
    )
}

/// The rows of a batch, as a set.
pub open spec fn batch_rows(batch: BatchModel) -> Set<(Seq<char>, i64)> {
    match (batch.columns[0], batch.columns[1]) {
        (ColumnModel::Utf8(paths), ColumnModel::Int64(positions)) => column_rows(paths, positions),
        _ => Set::empty(),
    }
}

/// Some position is negative.
pub open spec fn has_negative(positions: Seq<Option<i64>>) -> bool {
    exists|i: int|
        0 <= i < positions.len() && (#[trigger] positions[i] matches Some(position) && position < 0)
}

/// Why a batch is refused.
pub open spec fn refused_deletes(batch: BatchModel) -> Option<ErrorModel> {
    match (batch.columns[0], batch.columns[1]) {
        (ColumnModel::Utf8(paths), ColumnModel::Int64(positions)) => if has_null(paths) || has_null(
            positions,
        ) {
            Some(invalid("Position-delete file_path and pos values must not be null."@))
        } else if has_negative(positions) {
            Some(invalid("Position-delete row positions must be non-negative."@))
        } else {
            None
        },
        (ColumnModel::Utf8(_), _) => Some(invalid("Position-delete pos must be an Int64Array."@)),
        _ => Some(invalid("Position-delete file_path must be a StringArray."@)),
    }
}

/// The rows of two columns, with one row more.
proof fn lemma_column_rows_next(
    paths: Seq<Option<Seq<char>>>,
    positions: Seq<Option<i64>>,
    k: int,
    row: (Seq<char>, i64),
)
    requires
        0 <= k < paths.len(),
        paths.len() == positions.len(),
        row_at(paths, positions, k, row),
    ensures
        column_rows(paths.take(k + 1), positions.take(k + 1)) == column_rows(
            paths.take(k),
            positions.take(k),
        ).insert(row),
{
    let (p, q) = (paths.take(k), positions.take(k));
    let (p1, q1) = (paths.take(k + 1), positions.take(k + 1));
    assert forall|r: (Seq<char>, i64)|
        column_rows(p1, q1).contains(r) == column_rows(p, q).insert(row).contains(r) by {
        if column_rows(p1, q1).contains(r) {
            let i = choose|i: int| 0 <= i < p1.len() && #[trigger] row_at(p1, q1, i, r);
            if i < k {
                assert(row_at(p, q, i, r));
            } else {
                assert(r == row);
            }
        }
        if column_rows(p, q).contains(r) {
            let i = choose|i: int| 0 <= i < p.len() && #[trigger] row_at(p, q, i, r);
            assert(row_at(p1, q1, i, r));
        }
        assert(row_at(p1, q1, k, row));
    }
    assert(column_rows(p1, q1) == column_rows(p, q).insert(row));
}

/// Tells whether a position is negative.
fn any_negative(positions: &Vec<Option<i64>>) -> (found: bool)
    ensures
        found == has_negative(positions@),
{
    let mut i: usize = 0;
    while i < positions.len()
        invariant
            i <= positions.len(),
            forall|j: int|
                0 <= j < i ==> !(#[trigger] positions@[j] matches Some(position) && position < 0),
        decreases positions.len() - i,
    {
        if let Some(position) = positions[i] {
            if position < 0 {
                assert(positions@[i as int] matches Some(position) && position < 0);
                return true;
            }
        }
        i += 1;
    }
    false
}

impl<W, P> SortingPositionOnlyDeleteWriter<W, P> {
    #[verifier::type_invariant]
    spec fn consistent(self) -> bool {
        &&& self.closed == (self.inner is None)
        &&& self.flush_rows > 0
    }

    /// The writer that takes the sorted rows, while this writer is open.
    pub closed spec fn spec_inner(&self) -> Option<PositionDeleteFileWriter<W, P>> {
        self.inner
    }

    /// The delete rows gathered so far.
    pub closed spec fn deletes(&self) -> Set<(Seq<char>, i64)> {
        self.positions@
    }

    /// The largest number of rows in a batch.
    pub closed spec fn spec_flush_rows(&self) -> usize {
        self.flush_rows
    }

    /// The writer was closed.
    pub open spec fn is_closed(&self) -> bool {
        self.spec_inner() is None
    }

    /// Refuses where the writer was closed before.
    pub fn ensure_open(&self) -> (result: Result<(), Error>)
        ensures
            match result {
                Ok(()) => !self.is_closed(),
                Err(error) => self.is_closed() && error@ == sorting_writer_closed(),
            },
    {
        proof {
            use_type_invariant(self);
        }
        if self.closed {
            return Err(
                Error::new(
                    ErrorKind::Unexpected,
                    "Sorting position-only delete writer is already closed.".to_owned(),
                ),
            );
        }
        Ok(())
    }

    /// Adds one delete record.
    ///
    /// Negative row positions are invalid. Re-adding the same path and position is a no-op.
    pub fn write_delete(&mut self, file_path: &str, position: i64) -> (result: Result<(), Error>)
        ensures
            if old(self).is_closed() {
                &&& result matches Err(error) && error@ == sorting_writer_closed()
                &&& final(self).deletes() == old(self).deletes()
            } else if position < 0 {
                &&& result matches Err(error) && error@ == negative_row(position)
                &&& final(self).deletes() == old(self).deletes()
            } else {
                &&& result is Ok
                &&& final(self).deletes() == old(self).deletes().insert((file_path@, position))
            },
            final(self).spec_inner() == old(self).spec_inner(),
            final(self).spec_flush_rows() == old(self).spec_flush_rows(),
    {
        proof {
            use_type_invariant(&*self);
        }
        match self.ensure_open() {
            Ok(()) => {},
            Err(error) => {
                return Err(error);
            },
        }
        if position < 0 {
            return Err(
                Error::new(
                    ErrorKind::DataInvalid,
                    "Position delete row position must be non-negative, got ".to_owned().concat(
                        signed_text(position).as_str(),
                    ).concat("."),
                ),
            );
        }
        let mut positions = PositionMap::new();
        std::mem::swap(&mut positions, &mut self.positions);
        positions.insert(file_path, position);
        self.positions = positions;
        Ok(())
    }

    /// Adds the rows of a batch. `validation` is what checking the batch against the schema of
    /// position delete files gave. The complete batch is validated before the writer changes.
    pub fn write(&mut self, batch: &RowBatch, validation: Result<(), Error>) -> (result: Result<
        (),
        Error,
    >)
        requires
            !old(self).is_closed() && validation is Ok ==> batch@.valid() && has_delete_columns(batch@),
        ensures
            if old(self).is_closed() {
                &&& result matches Err(error) && error@ == sorting_writer_closed()
                &&& final(self).deletes() == old(self).deletes()
            } else if validation is Err {
                &&& result == validation
                &&& final(self).deletes() == old(self).deletes()
            } else if refused_deletes(batch@) is Some {
                &&& result matches Err(error) && error@ == refused_deletes(batch@)->0
                &&& final(self).deletes() == old(self).deletes()
            } else {
                &&& result is Ok
                &&& final(self).deletes() == old(self).deletes().union(batch_rows(batch@))
            },
            final(self).spec_inner() == old(self).spec_inner(),
            final(self).spec_flush_rows() == old(self).spec_flush_rows(),
    {
        proof {
            use_type_invariant(&*self);
        }
        match self.ensure_open() {
            Ok(()) => {},
            Err(error) => {
                return Err(error);
            },
        }
        match validation {
            Ok(()) => {},
            Err(error) => {
                return Err(error);
            },
        }
        assert(batch@.columns[0] == batch.columns@[0]@);
        let paths = match &batch.columns[0] {
            Column::Utf8(paths) => paths,
            _ => {
                return Err(
                    Error::new(
                        ErrorKind::DataInvalid,
                        "Position-delete file_path must be a StringArray.".to_owned(),
                    ),
                );
            },
        };
        assert(batch@.columns[1] == batch.columns@[1]@);
        let positions = match &batch.columns[1] {
            Column::Int64(positions) => positions,
            _ => {
                return Err(
                    Error::new(
                        ErrorKind::DataInvalid,
                        "Position-delete pos must be an Int64Array.".to_owned(),
                    ),
                );
            },
        };
        if any_text_null(paths) || any_number_null(positions) {
            return Err(
                Error::new(
                    ErrorKind::DataInvalid,
                    "Position-delete file_path and pos values must not be null.".to_owned(),
                ),
            );
        }
        if any_negative(positions) {
            return Err(
                Error::new(
                    ErrorKind::DataInvalid,
                    "Position-delete row positions must be non-negative.".to_owned(),
                ),
            );
        }
        let ghost path_model = optional_texts(paths@);
        let ghost position_model = positions@;
        let ghost before = self.deletes();
        let mut map = PositionMap::new();
        std::mem::swap(&mut map, &mut self.positions);
        assert(map@ == before);
        assert(column_rows(path_model.take(0), position_model.take(0)) == Set::<
            (Seq<char>, i64),
        >::empty());
        let mut i: usize = 0;
        while i < batch.num_rows
            invariant
                i <= batch.num_rows,
                paths.len() == batch.num_rows,
                positions.len() == batch.num_rows,
                path_model == optional_texts(paths@),
                position_model == positions@,
                !has_null(path_model),
                !has_null(position_model),
                !has_negative(position_model),
                map@ == before.union(
                    column_rows(path_model.take(i as int), position_model.take(i as int)),
                ),
            decreases batch.num_rows - i,
        {
            assert(path_model[i as int] is Some);
            assert(position_model[i as int] is Some);
            if let (Some(path), Some(position)) = (&paths[i], positions[i]) {
                let ghost row = (path@, position);
                proof {
                    assert(!(position_model[i as int] matches Some(position) && position < 0));
                    assert(row_at(path_model, position_model, i as int, row));
                    lemma_column_rows_next(path_model, position_model, i as int, row);
                }
                map.insert(path.as_str(), position);
            }
            i += 1;
        }
        assert(path_model.take(i as int) == path_model);
        assert(position_model.take(i as int) == position_model);
        self.positions = map;
        Ok(())
    }

    /// Adds the rows of a record batch, as [`write`][Self::write] does.
    pub fn write_record_batch(&mut self, batch: &ArrowBatch, validation: Result<(), Error>) -> (result:
        Result<(), Error>)
        requires
            !old(self).is_closed() && validation is Ok ==> has_delete_columns(contents(*batch)),
        ensures
            if old(self).is_closed() {
                &&& result matches Err(error) && error@ == sorting_writer_closed()
                &&& final(self).deletes() == old(self).deletes()
            } else if validation is Err {
                &&& result == validation
                &&& final(self).deletes() == old(self).deletes()
            } else if refused_deletes(contents(*batch)) is Some {
                &&& result matches Err(error) && error@ == refused_deletes(contents(*batch))->0
                &&& final(self).deletes() == old(self).deletes()
            } else {
                &&& result is Ok
                &&& final(self).deletes() == old(self).deletes().union(batch_rows(contents(*batch)))
            },
            final(self).spec_inner() == old(self).spec_inner(),
            final(self).spec_flush_rows() == old(self).spec_flush_rows(),
    {
        let rows = row_batch(batch);
        self.write(&rows, validation)
    }

    /// Closes the writer: hands out what is to be closed, with the sorted rows without duplicates
    /// that are still to be written.
    pub fn close(&mut self) -> (result: Result<ClosingSort<W, P>, Error>)
        ensures
            match result {
                Ok(closing) => {
                    &&& old(self).spec_inner() == Some(closing.spec_writer())
                    &&& strictly_sorted_rows(closing.remaining())
                    &&& closing.remaining().to_set() == old(self).deletes()
                    &&& closing.flush_rows() == old(self).spec_flush_rows()
                    &&& closing.failure() is None
                    &&& final(self).deletes() == Set::<(Seq<char>, i64)>::empty()
                },
                Err(error) => {
                    &&& old(self).is_closed()
                    &&& error@ == sorting_writer_closed()
                    &&& final(self).deletes() == old(self).deletes()
                },
            },
            final(self).is_closed(),
            final(self).spec_flush_rows() == old(self).spec_flush_rows(),
    {
        proof {
            use_type_invariant(&*self);
        }
        match self.ensure_open() {
            Ok(()) => {},
            Err(error) => {
                return Err(error);
            },
        }
        let flush_rows = self.flush_rows;
        let mut closed = SortingPositionOnlyDeleteWriter {
            inner: None,
            positions: PositionMap::new(),
            flush_rows,
            closed: true,
        };
        std::mem::swap(&mut closed, self);
        match closed.inner {
            Some(writer) => Ok(
                ClosingSort {
                    run: closed.positions.into_sorted(flush_rows),
                    writer,
                    failure: None,
                },
            ),
            None => Err(
                Error::new(
                    ErrorKind::Unexpected,
                    "Sorting position-only delete writer is already closed.".to_owned(),
                ),
            ),
        }
    }
}

} // verus!

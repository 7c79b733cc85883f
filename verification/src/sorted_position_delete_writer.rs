//! This module provides [`SortedPositionDeleteWriter`].
use crate::arrow_batch::{contents, row_batch, ArrowBatch};
use crate::batch::{has_null, optional_texts, BatchModel, Column, ColumnModel, RowBatch};
use crate::error::{invalid, unexpected, Error, ErrorKind, ErrorModel};
use crate::metadata::{DataFile, PartitionKey};
use crate::position_delete_writer::{row_view, row_views};
use crate::row_order::{sort_rows, sorted_rows};
use vstd::prelude::*;
use vstd::seq_lib::*;
use vstd::string::*;

verus! {

/// Config for [`SortedPositionDeleteWriter`].
#[derive(Debug, Clone, Copy)]
pub struct SortedPositionDeleteWriterConfig {
    max_records_per_file: usize,
}

impl SortedPositionDeleteWriterConfig {
    #[verifier::type_invariant]
    spec fn positive(self) -> bool {
        self.max_records_per_file > 0
    }

    /// Number of buffered delete rows after which a sorted run is flushed to a new file.
    pub closed spec fn spec_max_records_per_file(&self) -> usize {
        self.max_records_per_file
    }

    /// Creates a new `SortedPositionDeleteWriterConfig`.
    ///
    /// `max_records_per_file` bounds the number of `(file_path, pos)` rows buffered in memory
    /// before they are sorted and spilled to a new position delete file. Iceberg allows a position
    /// delete to be split across multiple files as long as each file is individually sorted by
    /// `(file_path, pos)`, so this bound trades file count for memory.
    pub fn new(max_records_per_file: usize) -> (result: Result<Self, Error>)
        ensures
            match result {
                Ok(config) => max_records_per_file > 0 && config.spec_max_records_per_file()
                    == max_records_per_file,
                Err(error) => max_records_per_file == 0 && error@ == invalid(
                    "max_records_per_file must be greater than zero."@,
                ),
            },
    {
        if max_records_per_file == 0 {
            return Err(
                Error::new(
                    ErrorKind::DataInvalid,
                    "max_records_per_file must be greater than zero.".to_owned(),
                ),
            );
        }
        Ok(SortedPositionDeleteWriterConfig { max_records_per_file })
    }
}

/// Builder for [`SortedPositionDeleteWriter`].
#[derive(Debug)]
pub struct SortedPositionDeleteWriterBuilder<R> {
    inner: R,
    config: SortedPositionDeleteWriterConfig,
}

impl<R> SortedPositionDeleteWriterBuilder<R> {
    /// The builder of the rolling file writers.
    pub closed spec fn spec_inner(&self) -> R {
        self.inner
    }

    /// The config.
    pub closed spec fn spec_config(&self) -> SortedPositionDeleteWriterConfig {
        self.config
    }

    /// Creates a new `SortedPositionDeleteWriterBuilder` using the builder of a rolling file
    /// writer.
    ///
    /// That builder must be constructed with a file writer configured for the schema of position
    /// delete files.
    pub fn new(inner: R, config: SortedPositionDeleteWriterConfig) -> (builder: Self)
        ensures
            builder.spec_inner() == inner,
            builder.spec_config() == config,
    {
        SortedPositionDeleteWriterBuilder { inner, config }
    }

    /// Builds a writer for the given partition.
    pub fn build<P, F>(&self, partition_key: Option<PartitionKey<P>>) -> (writer:
        SortedPositionDeleteWriter<R, P, F>) where R: Clone
        ensures
            cloned(self.spec_inner(), writer.spec_inner()),
            writer.spec_partition_key() == partition_key,
            writer.max_records_per_file() == self.spec_config().spec_max_records_per_file(),
            writer.buffered() == Seq::<(Seq<char>, i64)>::empty(),
            writer.files() == Seq::<DataFile<F, P>>::empty(),
            !writer.is_closed(),
    {
        let writer = SortedPositionDeleteWriter {
            inner: self.inner.clone(),
            partition_key,
            config: self.config,
            buffer: Vec::new(),
            data_files: Vec::new(),
            closed: false,
        };
        assert(writer.buffered() == Seq::<(Seq<char>, i64)>::empty());
        writer
    }
}

/// Writer that buffers `(file_path, pos)` position deletes, sorts them, and spills sorted runs to
/// position delete files.
///
/// Position delete files must be sorted by `(file_path, pos)` within each file. This writer
/// buffers rows in memory up to `max_records_per_file`, sorts the buffer, and has it written out
/// as one file; if more rows follow, a new sorted file is started. Iceberg permits a position
/// delete to span multiple files this way, since each file only needs to be sorted internally.
#[derive(Debug)]
pub struct SortedPositionDeleteWriter<R, P, F> {
    inner: R,
    partition_key: Option<PartitionKey<P>>,
    config: SortedPositionDeleteWriterConfig,
    buffer: Vec<(String, i64)>,
    data_files: Vec<DataFile<F, P>>,
    closed: bool,
}

/// The error for a writer that was closed before.
pub open spec fn sorted_writer_closed() -> ErrorModel {
    unexpected("Sorted position delete writer has been closed."@)
}

/// The rows from `i` on, up to the first that holds a null.
pub open spec fn leading_rows(
    paths: Seq<Option<Seq<char>>>,
    positions: Seq<Option<i64>>,
    i: int,
) -> Seq<(Seq<char>, i64)>
    decreases paths.len() - i,
{
    if i >= paths.len() {
        Seq::empty()
    } else {
        match (paths[i], positions[i]) {
            (Some(path), Some(position)) => seq![(path, position)] + leading_rows(paths, positions, i + 1),
            _ => Seq::empty(),
        }
    }
}

/// The rows of a batch that go to the buffer.
pub open spec fn accepted_rows(batch: BatchModel) -> Seq<(Seq<char>, i64)> {
    match (batch.columns[0], batch.columns[1]) {
        (ColumnModel::Utf8(paths), ColumnModel::Int64(positions)) => leading_rows(paths, positions, 0),
        _ => Seq::empty(),
    }
}

/// Why a batch is refused.
pub open spec fn refused_batch(batch: BatchModel) -> Option<ErrorModel> {
    match (batch.columns[0], batch.columns[1]) {
        (ColumnModel::Utf8(paths), ColumnModel::Int64(positions)) => if has_null(paths) || has_null(
            positions,
        ) {
            Some(invalid("file_path and pos must not be null in position delete rows"@))
        } else {
            None
        },
        (ColumnModel::Utf8(_), _) => Some(invalid("Could not downcast pos column to Int64Array"@)),
        _ => Some(invalid("Could not downcast file_path column to StringArray"@)),
    }
}

/// The batch has the columns that are looked at: column 0, and column 1 where column 0 holds
/// texts.
pub open spec fn has_delete_columns(batch: BatchModel) -> bool {
    batch.columns.len() > 0 && (batch.columns[0] is Utf8 ==> batch.columns.len() > 1)
}

/// `run` holds the given rows in order.
pub open spec fn sorted_run(run: Seq<(Seq<char>, i64)>, rows: Seq<(Seq<char>, i64)>) -> bool {
    sorted_rows(run) && run.to_multiset() == rows.to_multiset()
}

/// Each run holds the rows of one part, in order.
pub open spec fn sorted_runs(
    runs: Seq<Seq<(Seq<char>, i64)>>,
    parts: Seq<Seq<(Seq<char>, i64)>>,
) -> bool {
    &&& runs.len() == parts.len()
    &&& forall|i: int| 0 <= i < runs.len() ==> sorted_run(#[trigger] runs[i], parts[i])
}

/// The mathematical value of runs.
pub open spec fn run_views(runs: Seq<Vec<(String, i64)>>) -> Seq<Seq<(Seq<char>, i64)>> {
    runs.map_values(|run: Vec<(String, i64)>| row_views(run@))
}

/// The parts that leave a buffer which has grown past `max` rows, of `max` rows each and in the
/// order in which the rows came.
pub open spec fn full_parts(rows: Seq<(Seq<char>, i64)>, max: nat) -> Seq<Seq<(Seq<char>, i64)>>
    decreases rows.len(),
{
    if max == 0 || rows.len() <= max {
        Seq::empty()
    } else {
        seq![rows.take(max as int)] + full_parts(rows.skip(max as int), max)
    }
}

/// The rows that are left, at most `max`.
pub open spec fn part_left(rows: Seq<(Seq<char>, i64)>, max: nat) -> Seq<(Seq<char>, i64)>
    decreases rows.len(),
{
    if max == 0 || rows.len() <= max {
        rows
    } else {
        part_left(rows.skip(max as int), max)
    }
}

/// All rows, in parts of at most `max` rows.
pub open spec fn all_parts(rows: Seq<(Seq<char>, i64)>, max: nat) -> Seq<Seq<(Seq<char>, i64)>> {
    if rows.len() == 0 {
        Seq::empty()
    } else {
        full_parts(rows, max).push(part_left(rows, max))
    }
}

/// The parts that are written out once the buffer holds the given rows: all that hold `max` rows.
pub open spec fn due_parts(rows: Seq<(Seq<char>, i64)>, max: nat) -> Seq<Seq<(Seq<char>, i64)>> {
    if part_left(rows, max).len() >= max {
        full_parts(rows, max).push(part_left(rows, max))
    } else {
        full_parts(rows, max)
    }
}

/// The rows that wait for more, fewer than `max`.
pub open spec fn waiting_rows(rows: Seq<(Seq<char>, i64)>, max: nat) -> Seq<(Seq<char>, i64)> {
    if part_left(rows, max).len() >= max {
        Seq::empty()
    } else {
        part_left(rows, max)
    }
}

/// No run holds more than `max` rows.
pub open spec fn bounded_runs(runs: Seq<Seq<(Seq<char>, i64)>>, max: nat) -> bool {
    forall|i: int| 0 <= i < runs.len() ==> 0 < (#[trigger] runs[i]).len() <= max
}

/// The full parts hold `max` rows each and together with what is left all rows, in order.
pub proof fn lemma_full_parts(rows: Seq<(Seq<char>, i64)>, max: nat)
    requires
        max > 0,
    ensures
        full_parts(rows, max).flatten() + part_left(rows, max) == rows,
        forall|i: int|
            0 <= i < full_parts(rows, max).len() ==> (#[trigger] full_parts(rows, max)[i]).len() == max,
        part_left(rows, max).len() <= max,
        rows.len() > 0 ==> part_left(rows, max).len() > 0,
    decreases rows.len(),
{
    let parts = full_parts(rows, max);
    if rows.len() > max {
        let rest = rows.skip(max as int);
        lemma_full_parts(rest, max);
        assert(parts.first() == rows.take(max as int));
        assert(parts.drop_first() == full_parts(rest, max));
        assert(parts.flatten() == rows.take(max as int) + full_parts(rest, max).flatten());
        assert(parts.flatten() + part_left(rows, max) == rows.take(max as int) + (full_parts(
            rest,
            max,
        ).flatten() + part_left(rest, max)));
        assert(rows.take(max as int) + rest == rows);
        assert forall|i: int| 0 <= i < parts.len() implies (#[trigger] parts[i]).len() == max by {
            if i > 0 {
                assert(parts[i] == full_parts(rest, max)[i - 1]);
            }
        }
    } else {
        assert(parts.flatten() + rows == rows);
    }
}

/// Joining one more part.
proof fn lemma_flatten_push(parts: Seq<Seq<(Seq<char>, i64)>>, part: Seq<(Seq<char>, i64)>)
    ensures
        parts.push(part).flatten() == parts.flatten() + part,
    decreases parts.len(),
{
    let all = parts.push(part);
    if parts.len() == 0 {
        assert(all.drop_first() == Seq::<Seq<(Seq<char>, i64)>>::empty());
        assert(all.flatten() == part + all.drop_first().flatten());
        assert(all.flatten() == parts.flatten() + part);
    } else {
        lemma_flatten_push(parts.drop_first(), part);
        assert(all.drop_first() == parts.drop_first().push(part));
        assert(all.first() == parts.first());
        assert(all.flatten() == parts.flatten() + part);
    }
}

/// The runs that are due hold between one and `max` rows, together with the waiting rows they are
/// all rows in order, and fewer than `max` rows wait.
pub proof fn lemma_due_parts(rows: Seq<(Seq<char>, i64)>, max: nat)
    requires
        max > 0,
    ensures
        due_parts(rows, max).flatten() + waiting_rows(rows, max) == rows,
        bounded_runs(due_parts(rows, max), max),
        waiting_rows(rows, max).len() < max,
{
    lemma_full_parts(rows, max);
    let parts = full_parts(rows, max);
    let left = part_left(rows, max);
    lemma_flatten_push(parts, left);
    assert((parts.flatten() + left) + Seq::<(Seq<char>, i64)>::empty() == rows);
}

/// The runs of a close hold between one and `max` rows, and together they are all rows in order.
pub proof fn lemma_all_parts(rows: Seq<(Seq<char>, i64)>, max: nat)
    requires
        max > 0,
    ensures
        all_parts(rows, max).flatten() == rows,
        bounded_runs(all_parts(rows, max), max),
{
    lemma_full_parts(rows, max);
    lemma_flatten_push(full_parts(rows, max), part_left(rows, max));
    if rows.len() == 0 {
        assert(all_parts(rows, max).flatten() == rows);
    }
}

/// Sorted runs keep the rows of their parts, and are of the same length.
pub proof fn lemma_sorted_runs_keep_rows(
    runs: Seq<Seq<(Seq<char>, i64)>>,
    parts: Seq<Seq<(Seq<char>, i64)>>,
)
    requires
        sorted_runs(runs, parts),
    ensures
        runs.flatten().to_multiset() == parts.flatten().to_multiset(),
        forall|i: int| 0 <= i < runs.len() ==> (#[trigger] runs[i]).len() == parts[i].len(),
    decreases runs.len(),
{
    broadcast use group_to_multiset_ensures;

    assert forall|i: int| 0 <= i < runs.len() implies (#[trigger] runs[i]).len() == parts[i].len() by {
        assert(sorted_run(runs[i], parts[i]));
        assert(runs[i].len() == runs[i].to_multiset().len());
        assert(parts[i].len() == parts[i].to_multiset().len());
    }
    if runs.len() > 0 {
        let (r, p) = (runs.drop_first(), parts.drop_first());
        assert forall|i: int| 0 <= i < r.len() implies sorted_run(#[trigger] r[i], p[i]) by {
            assert(sorted_run(runs[i + 1], parts[i + 1]));
        }
        lemma_sorted_runs_keep_rows(r, p);
        assert(sorted_run(runs[0], parts[0]));
        assert(runs.flatten() == runs[0] + r.flatten());
        assert(parts.flatten() == parts[0] + p.flatten());
        lemma_multiset_commutative(runs[0], r.flatten());
        lemma_multiset_commutative(parts[0], p.flatten());
    } else {
        assert(runs.flatten() == parts.flatten());
    }
}

impl<R, P, F> SortedPositionDeleteWriter<R, P, F> {
    /// The builder of the rolling file writers.
    pub closed spec fn spec_inner(&self) -> R {
        self.inner
    }

    /// The partition that is written to.
    pub closed spec fn spec_partition_key(&self) -> Option<PartitionKey<P>> {
        self.partition_key
    }

    /// Number of buffered delete rows after which a sorted run is flushed to a new file.
    pub closed spec fn max_records_per_file(&self) -> usize {
        self.config.max_records_per_file
    }

    /// The rows that wait for being written, in the order in which they came.
    pub closed spec fn buffered(&self) -> Seq<(Seq<char>, i64)> {
        row_views(self.buffer@)
    }

    /// The files written so far.
    pub closed spec fn files(&self) -> Seq<DataFile<F, P>> {
        self.data_files@
    }

    /// The writer was closed.
    pub closed spec fn is_closed(&self) -> bool {
        self.closed
    }

    /// What no operation changes.
    pub open spec fn same_setup(&self, other: &Self) -> bool {
        &&& self.spec_inner() == other.spec_inner()
        &&& self.spec_partition_key() == other.spec_partition_key()
        &&& self.max_records_per_file() == other.max_records_per_file()
    }

    /// The builder of the rolling file writers.
    pub fn inner(&self) -> (inner: &R)
        ensures
            *inner == self.spec_inner(),
    {
        &self.inner
    }

    /// The partition that is written to.
    pub fn partition_key(&self) -> (partition_key: &Option<PartitionKey<P>>)
        ensures
            *partition_key == self.spec_partition_key(),
    {
        &self.partition_key
    }

    /// Refuses where the writer was closed before.
    pub fn ensure_open(&self) -> (result: Result<(), Error>)
        ensures
            match result {
                Ok(()) => !self.is_closed(),
                Err(error) => self.is_closed() && error@ == sorted_writer_closed(),
            },
    {
        if self.closed {
            return Err(
                Error::new(
                    ErrorKind::Unexpected,
                    "Sorted position delete writer has been closed.".to_owned(),
                ),
            );
        }
        Ok(())
    }

    /// Hands out sorted runs of `max_records_per_file` rows while the buffer holds more than that.
    fn spill(&mut self) -> (runs: Vec<Vec<(String, i64)>>)
        ensures
            sorted_runs(
                run_views(runs@),
                full_parts(old(self).buffered(), old(self).max_records_per_file() as nat),
            ),
            final(self).buffered() == part_left(
                old(self).buffered(),
                old(self).max_records_per_file() as nat,
            ),
            final(self).files() == old(self).files(),
            final(self).is_closed() == old(self).is_closed(),
            final(self).same_setup(old(self)),
    {
        proof {
            use_type_invariant(&self.config);
        }
        let max = self.config.max_records_per_file;
        let ghost limit = max as nat;
        let mut runs: Vec<Vec<(String, i64)>> = Vec::new();
        if self.buffer.len() <= max {
            return runs;
        }
        let mut rows: Vec<(String, i64)> = Vec::new();
        std::mem::swap(&mut rows, &mut self.buffer);
        let ghost all = row_views(rows@);
        let ghost mut parts: Seq<Seq<(Seq<char>, i64)>> = Seq::empty();
        let mut run: Vec<(String, i64)> = Vec::new();
        assert(row_views(run@) + all.skip(0) == all);
        assert(parts + full_parts(all, limit) == full_parts(all, limit));
        for row in it: rows
            invariant
                max > 0,
                limit == max as nat,
                it.seq().len() == all.len(),
                forall|i: int| 0 <= i < all.len() ==> #[trigger] all[i] == row_view(it.seq()[i]),
                run.len() <= max,
                sorted_runs(run_views(runs@), parts),
                parts + full_parts(row_views(run@) + all.skip(it.index()), limit) == full_parts(
                    all,
                    limit,
                ),
                part_left(row_views(run@) + all.skip(it.index()), limit) == part_left(all, limit),
        {
            let ghost k = it.index();
            let ghost rest = all.skip(k);
            let ghost current = row_views(run@);
            assert(rest == seq![all[k]] + all.skip(k + 1));
            if run.len() == max {
                let mut full: Vec<(String, i64)> = Vec::new();
                std::mem::swap(&mut full, &mut run);
                let sorted = sort_rows(full);
                let ghost before = run_views(runs@);
                let ghost parts_before = parts;
                runs.push(sorted);
                proof {
                    let joined = current + rest;
                    assert(joined.take(max as int) == current);
                    assert(joined.skip(max as int) == rest);
                    assert(run_views(runs@) == before.push(row_views(sorted@)));
                    parts = parts.push(current);
                    assert(parts + full_parts(rest, limit) == parts_before + (seq![current]
                        + full_parts(rest, limit)));
                    assert(row_views(run@) + rest == rest);
                }
            }
            let ghost held = row_views(run@);
            run.push(row);
            assert(row_views(run@) == held.push(all[k]));
            assert(held.push(all[k]) + all.skip(k + 1) == held + rest);
        }
        assert(row_views(run@) + all.skip(all.len() as int) == row_views(run@));
        assert(parts + Seq::<Seq<(Seq<char>, i64)>>::empty() == parts);
        self.buffer = run;
        runs
    }

    /// Empties the buffer and hands out its rows in sorted runs of at most `max_records_per_file`
    /// rows; each is to be written out as a single new position delete file. There is none where
    /// the buffer is empty.
    pub fn flush(&mut self) -> (runs: Vec<Vec<(String, i64)>>)
        ensures
            sorted_runs(
                run_views(runs@),
                all_parts(old(self).buffered(), old(self).max_records_per_file() as nat),
            ),
            bounded_runs(run_views(runs@), old(self).max_records_per_file() as nat),
            run_views(runs@).flatten().to_multiset() == old(self).buffered().to_multiset(),
            final(self).buffered() == Seq::<(Seq<char>, i64)>::empty(),
            final(self).files() == old(self).files(),
            final(self).is_closed() == old(self).is_closed(),
            final(self).same_setup(old(self)),
    {
        proof {
            use_type_invariant(&self.config);
        }
        let ghost rows = self.buffered();
        let ghost max = self.max_records_per_file() as nat;
        let mut runs = self.spill();
        proof {
            lemma_full_parts(rows, max);
        }
        let mut left: Vec<(String, i64)> = Vec::new();
        std::mem::swap(&mut left, &mut self.buffer);
        assert(self.buffered() == Seq::<(Seq<char>, i64)>::empty());
        if left.len() > 0 {
            let ghost before = run_views(runs@);
            let ghost part = row_views(left@);
            let sorted = sort_rows(left);
            runs.push(sorted);
            assert(run_views(runs@) == before.push(row_views(sorted@)));
            assert(sorted_run(row_views(sorted@), part));
        }
        proof {
            lemma_all_parts(rows, max);
            lemma_sorted_runs_keep_rows(run_views(runs@), all_parts(rows, max));
        }
        runs
    }

    /// Appends the rows of a batch to the buffer. The rows before the first that holds a null stay
    /// there even though the batch is refused.
    fn append_batch(&mut self, batch: &RowBatch) -> (result: Result<(), Error>)
        requires
            batch@.valid(),
            has_delete_columns(batch@),
        ensures
            match (result, refused_batch(batch@)) {
                (Ok(()), None) => true,
                (Err(error), Some(expected)) => error@ == expected,
                _ => false,
            },
            final(self).buffered() == old(self).buffered() + accepted_rows(batch@),
            final(self).files() == old(self).files(),
            final(self).is_closed() == old(self).is_closed(),
            final(self).same_setup(old(self)),
    {
        let ghost before = self.buffered();
        assert(before + Seq::<(Seq<char>, i64)>::empty() == before);
        assert(batch@.columns[0] == batch.columns@[0]@);
        let paths = match &batch.columns[0] {
            Column::Utf8(paths) => paths,
            _ => {
                return Err(
                    Error::new(
                        ErrorKind::DataInvalid,
                        "Could not downcast file_path column to StringArray".to_owned(),
                    ),
                );
            },
        };
        assert(batch@.columns[1] == batch.columns@[1]@);
        let positions = match &batch.columns[1] {
            Column::Int64(positions) => positions,
            _ => {
                return Err(
                    Error::new(
                        ErrorKind::DataInvalid,
                        "Could not downcast pos column to Int64Array".to_owned(),
                    ),
                );
            },
        };
        let ghost path_model = optional_texts(paths@);
        let ghost position_model = positions@;
        let mut i: usize = 0;
        while i < paths.len()
            invariant
                i <= paths.len(),
                paths.len() == positions.len(),
                paths.len() == batch@.rows,
                path_model == optional_texts(paths@),
                position_model == positions@,
                batch@.columns[0] == ColumnModel::Utf8(path_model),
                batch@.columns[1] == ColumnModel::Int64(position_model),
                before == old(self).buffered(),
                self.buffered() + leading_rows(path_model, position_model, i as int) == before
                    + leading_rows(path_model, position_model, 0),
                forall|j: int| 0 <= j < i ==> (#[trigger] path_model[j]) is Some,
                forall|j: int| 0 <= j < i ==> (#[trigger] position_model[j]) is Some,
                self.data_files == old(self).data_files,
                self.closed == old(self).closed,
                self.same_setup(old(self)),
            decreases paths.len() - i,
        {
            let ghost here = self.buffered();
            match (&paths[i], positions[i]) {
                (Some(path), Some(position)) => {
                    let row = (path.clone(), position);
                    self.buffer.push(row);
                    assert(row_views(self.buffer@) == here.push((path@, position)));
                    assert(here.push((path@, position)) + leading_rows(
                        path_model,
                        position_model,
                        i + 1,
                    ) == here + leading_rows(path_model, position_model, i as int));
                },
                _ => {
                    assert(path_model[i as int] is None || position_model[i as int] is None);
                    assert(here == before + leading_rows(path_model, position_model, 0));
                    return Err(
                        Error::new(
                            ErrorKind::DataInvalid,
                            "file_path and pos must not be null in position delete rows".to_owned(),
                        ),
                    );
                },
            }
            i += 1;
        }
        assert(self.buffered() == before + leading_rows(path_model, position_model, 0));
        Ok(())
    }

    /// Buffers one batch of `(file_path, pos)` rows, flushing sorted runs if the buffer has grown
    /// past `max_records_per_file`: each of them is to be written out as a new position delete
    /// file, and at most `max_records_per_file` rows stay buffered. Where the batch is refused, the
    /// rows before the first that holds a null stay buffered, and no run is handed out.
    pub fn buffer_batch(&mut self, batch: &RowBatch) -> (result: Result<Vec<Vec<(String, i64)>>, Error>)
        requires
            batch@.valid(),
            has_delete_columns(batch@),
        ensures
            final(self).files() == old(self).files(),
            final(self).is_closed() == old(self).is_closed(),
            final(self).same_setup(old(self)),
            ({
                let rows = old(self).buffered() + accepted_rows(batch@);
                let max = old(self).max_records_per_file() as nat;
                match (result, refused_batch(batch@)) {
                    (Ok(runs), None) => {
                        &&& sorted_runs(run_views(runs@), full_parts(rows, max))
                        &&& final(self).buffered() == part_left(rows, max)
                        &&& bounded_runs(run_views(runs@), max)
                        &&& run_views(runs@).flatten().to_multiset().add(
                            final(self).buffered().to_multiset(),
                        ) == rows.to_multiset()
                        &&& final(self).buffered().len() <= max
                    },
                    (Err(error), Some(expected)) => error@ == expected && final(self).buffered()
                        == rows,
                    _ => false,
                }
            }),
    {
        proof {
            use_type_invariant(&self.config);
        }
        let ghost rows = self.buffered() + accepted_rows(batch@);
        let ghost max = self.max_records_per_file() as nat;
        match self.append_batch(batch) {
            Ok(()) => {},
            Err(error) => {
                return Err(error);
            },
        }
        let runs = self.spill();
        proof {
            lemma_full_parts(rows, max);
            lemma_sorted_runs_keep_rows(run_views(runs@), full_parts(rows, max));
            lemma_multiset_commutative(full_parts(rows, max).flatten(), part_left(rows, max));
        }
        Ok(runs)
    }

    /// Buffers a batch. Whenever the buffer has grown to `max_records_per_file` rows, it is flushed:
    /// each run that is handed out is to be written as a new position delete file, and the outcome
    /// given to [`record_files`][Self::record_files].
    pub fn write(&mut self, batch: &RowBatch) -> (result: Result<Vec<Vec<(String, i64)>>, Error>)
        requires
            old(self).is_closed() || (batch@.valid() && has_delete_columns(batch@)),
        ensures
            final(self).files() == old(self).files(),
            final(self).is_closed() == old(self).is_closed(),
            final(self).same_setup(old(self)),
            ({
                let rows = old(self).buffered() + accepted_rows(batch@);
                let max = old(self).max_records_per_file() as nat;
                if old(self).is_closed() {
                    &&& result matches Err(error) && error@ == sorted_writer_closed()
                    &&& final(self).buffered() == old(self).buffered()
                } else if refused_batch(batch@) is Some {
                    &&& result matches Err(error) && error@ == refused_batch(batch@)->0
                    &&& final(self).buffered() == rows
                } else {
                    &&& result matches Ok(runs)
                    &&& sorted_runs(run_views(runs@), due_parts(rows, max))
                    &&& final(self).buffered() == waiting_rows(rows, max)
                    &&& bounded_runs(run_views(runs@), max)
                    &&& run_views(runs@).flatten().to_multiset().add(
                        final(self).buffered().to_multiset(),
                    ) == rows.to_multiset()
                    &&& final(self).buffered().len() < max
                }
            }),
    {
        proof {
            use_type_invariant(&self.config);
        }
        match self.ensure_open() {
            Ok(()) => {},
            Err(error) => {
                return Err(error);
            },
        }
        let ghost rows = self.buffered() + accepted_rows(batch@);
        let ghost max = self.max_records_per_file() as nat;
        let mut runs = match self.buffer_batch(batch) {
            Ok(runs) => runs,
            Err(error) => {
                return Err(error);
            },
        };
        if self.buffer.len() >= self.config.max_records_per_file {
            let ghost first = run_views(runs@);
            let mut last = self.flush();
            proof {
                lemma_full_parts(rows, max);
                let left = part_left(rows, max);
                assert(full_parts(left, max) == Seq::<Seq<(Seq<char>, i64)>>::empty());
                assert(all_parts(left, max) == seq![left]);
                assert(full_parts(rows, max) + seq![left] == full_parts(rows, max).push(left));
            }
            let ghost second = run_views(last@);
            runs.append(&mut last);
            assert(run_views(runs@) == first + second);
        }
        proof {
            lemma_due_parts(rows, max);
            lemma_sorted_runs_keep_rows(run_views(runs@), due_parts(rows, max));
            lemma_multiset_commutative(due_parts(rows, max).flatten(), waiting_rows(rows, max));
        }
        Ok(runs)
    }

    /// Buffers a record batch, as [`write`][Self::write] does.
    pub fn write_record_batch(&mut self, batch: &ArrowBatch) -> (result: Result<
        Vec<Vec<(String, i64)>>,
        Error,
    >)
        requires
            old(self).is_closed() || has_delete_columns(contents(*batch)),
        ensures
            final(self).files() == old(self).files(),
            final(self).is_closed() == old(self).is_closed(),
            final(self).same_setup(old(self)),
            ({
                let rows = old(self).buffered() + accepted_rows(contents(*batch));
                let max = old(self).max_records_per_file() as nat;
                if old(self).is_closed() {
                    &&& result matches Err(error) && error@ == sorted_writer_closed()
                    &&& final(self).buffered() == old(self).buffered()
                } else if refused_batch(contents(*batch)) is Some {
                    &&& result matches Err(error) && error@ == refused_batch(contents(*batch))->0
                    &&& final(self).buffered() == rows
                } else {
                    &&& result matches Ok(runs)
                    &&& sorted_runs(run_views(runs@), due_parts(rows, max))
                    &&& final(self).buffered() == waiting_rows(rows, max)
                    &&& bounded_runs(run_views(runs@), max)
                    &&& run_views(runs@).flatten().to_multiset().add(
                        final(self).buffered().to_multiset(),
                    ) == rows.to_multiset()
                    &&& final(self).buffered().len() < max
                }
            }),
    {
        let rows = row_batch(batch);
        self.write(&rows)
    }

    /// Takes the outcome of writing a flushed run: its files are kept until the writer is closed.
    pub fn record_files(&mut self, flushed: Result<Vec<DataFile<F, P>>, Error>) -> (result: Result<
        (),
        Error,
    >)
        ensures
            match flushed {
                Ok(files) => result is Ok && final(self).files() == old(self).files() + files@,
                Err(error) => result == Err::<(), Error>(error) && final(self).files() == old(
                    self,
                ).files(),
            },
            final(self).buffered() == old(self).buffered(),
            final(self).is_closed() == old(self).is_closed(),
            final(self).same_setup(old(self)),
    {
        match flushed {
            Ok(files) => {
                let mut files = files;
                self.data_files.append(&mut files);
                Ok(())
            },
            Err(error) => Err(error),
        }
    }

    /// Closes the writer and flushes the rest. Each run that is handed out is to be written as a
    /// position delete file, and the outcome given to [`record_files`][Self::record_files]; then
    /// [`take_files`][Self::take_files] hands out every file.
    pub fn close(&mut self) -> (result: Result<Vec<Vec<(String, i64)>>, Error>)
        ensures
            match result {
                Err(error) => {
                    &&& old(self).is_closed()
                    &&& error@ == sorted_writer_closed()
                    &&& final(self).buffered() == old(self).buffered()
                },
                Ok(runs) => {
                    &&& !old(self).is_closed()
                    &&& final(self).buffered() == Seq::<(Seq<char>, i64)>::empty()
                    &&& sorted_runs(
                        run_views(runs@),
                        all_parts(old(self).buffered(), old(self).max_records_per_file() as nat),
                    )
                    &&& bounded_runs(run_views(runs@), old(self).max_records_per_file() as nat)
                    &&& run_views(runs@).flatten().to_multiset() == old(self).buffered().to_multiset()
                },
            },
            final(self).is_closed(),
            final(self).files() == old(self).files(),
            final(self).same_setup(old(self)),
    {
        match self.ensure_open() {
            Ok(()) => {},
            Err(error) => {
                return Err(error);
            },
        }
        self.closed = true;
        Ok(self.flush())
    }

    /// Hands out the files written so far.
    pub fn take_files(&mut self) -> (files: Vec<DataFile<F, P>>)
        ensures
            files@ == old(self).files(),
            final(self).files() == Seq::<DataFile<F, P>>::empty(),
            final(self).buffered() == old(self).buffered(),
            final(self).is_closed() == old(self).is_closed(),
            final(self).same_setup(old(self)),
    {
        let mut files: Vec<DataFile<F, P>> = Vec::new();
        std::mem::swap(&mut files, &mut self.data_files);
        files
    }
}

} // verus!

//! What is written can be read back: laws that join the writers of position deletes to the loader
//! of their files.
use crate::batch::{has_null, BatchModel, ColumnModel};
use crate::delete_file_loader::{
    carries_id, delete_columns, lemma_uniform_stream_is_readable, load_start, load_step,
    load_steps, loaded_positions, positions_of, readable, refused_row, refused_task, stream_rows,
    wrong_count, LoadModel,
};
use crate::error::ErrorModel;
use crate::metadata::{
    FileScanTaskDeleteFile, RESERVED_FIELD_ID_DELETE_FILE_PATH, RESERVED_FIELD_ID_DELETE_FILE_POS,
};
use crate::position_delete_writer::{
    delete_batch, lemma_only_reference, named_paths, row_numbers, ReferenceModel,
};
use crate::row_order::{lemma_no_row_twice, strictly_sorted_rows};
use crate::sorted_position_delete_writer::sorted_run;
use crate::text::lemma_parse_decimal;
use vstd::prelude::*;
use vstd::seq_lib::*;

verus! {

/// Every row deletes from `data_file`, at a position that is not negative.
pub open spec fn file_scoped(rows: Seq<(Seq<char>, i64)>, data_file: Seq<char>) -> bool {
    forall|i: int| 0 <= i < rows.len() ==> (#[trigger] rows[i]).0 == data_file && rows[i].1 >= 0
}

/// The positions of rows.
pub open spec fn positions_in(rows: Seq<(Seq<char>, i64)>) -> Set<u64> {
    rows.map_values(|row: (Seq<char>, i64)| row.1 as u64).to_set()
}

/// A delete file that holds one batch after the other, as reading it yields them.
pub open spec fn batch_stream(batches: Seq<Seq<(Seq<char>, i64)>>) -> Seq<
    Result<BatchModel, ErrorModel>,
> {
    batches.map_values(
        |rows: Seq<(Seq<char>, i64)>| Ok::<BatchModel, ErrorModel>(delete_batch(rows)),
    )
}

/// The two columns of a delete batch are found by their field ids.
proof fn lemma_delete_columns(rows: Seq<(Seq<char>, i64)>, file: Seq<char>)
    ensures
        delete_columns(delete_batch(rows).field_ids, file) == Ok::<(int, int), ErrorModel>((0, 1)),
{
    let ids = delete_batch(rows).field_ids;
    lemma_parse_decimal(RESERVED_FIELD_ID_DELETE_FILE_PATH);
    lemma_parse_decimal(RESERVED_FIELD_ID_DELETE_FILE_POS);
    assert(carries_id(ids, 0, RESERVED_FIELD_ID_DELETE_FILE_PATH));
    assert(!carries_id(ids, 1, RESERVED_FIELD_ID_DELETE_FILE_PATH));
    assert(carries_id(ids, 1, RESERVED_FIELD_ID_DELETE_FILE_POS));
    assert(!carries_id(ids, 0, RESERVED_FIELD_ID_DELETE_FILE_POS));
}

/// No row of the data file is refused.
proof fn lemma_no_refused_row(
    rows: Seq<(Seq<char>, i64)>,
    file: Seq<char>,
    data_file: Seq<char>,
    i: int,
)
    requires
        0 <= i <= rows.len(),
        file_scoped(rows, data_file),
    ensures
        refused_row(
            named_paths(rows),
            row_numbers(rows).map_values(|number: i64| Some(number)),
            file,
            data_file,
            i,
        ) is None,
    decreases rows.len() - i,
{
    if i < rows.len() {
        lemma_no_refused_row(rows, file, data_file, i + 1);
        assert(rows[i].0 == data_file && rows[i].1 >= 0);
    }
}

/// A load takes in the positions of one more batch.
proof fn lemma_load_delete_batch(state: LoadModel, rows: Seq<(Seq<char>, i64)>)
    requires
        state.columns is None || state.columns == Some((0int, 1int)),
        file_scoped(rows, state.expected),
    ensures
        load_step(state, delete_batch(rows)) == Ok::<LoadModel, ErrorModel>(
            LoadModel {
                columns: Some((0int, 1int)),
                rows: state.rows + rows.len(),
                positions: state.positions.union(positions_in(rows)),
                ..state
            },
        ),
{
    let batch = delete_batch(rows);
    let paths = named_paths(rows);
    let positions = row_numbers(rows).map_values(|number: i64| Some(number));
    lemma_delete_columns(rows, state.file);
    lemma_no_refused_row(rows, state.file, state.expected, 0);
    assert(batch.columns[0] == ColumnModel::Utf8(paths));
    assert(batch.columns[1] == ColumnModel::Int64(positions));
    assert(!has_null(paths));
    assert(!has_null(positions));
    assert(positions.map_values(|p: Option<i64>| p->0 as u64) == rows.map_values(
        |row: (Seq<char>, i64)| row.1 as u64,
    ));
    assert(positions_of(positions) == positions_in(rows));
}

/// Positions of joined rows.
proof fn lemma_positions_join(a: Seq<(Seq<char>, i64)>, b: Seq<(Seq<char>, i64)>)
    ensures
        positions_in(a + b) == positions_in(a).union(positions_in(b)),
{
    let f = |row: (Seq<char>, i64)| row.1 as u64;
    let (x, y) = (a.map_values(f), b.map_values(f));
    assert((a + b).map_values(f) == x + y);
    assert forall|p: u64| (x + y).to_set().contains(p) == x.to_set().union(y.to_set()).contains(p) by {
        if (x + y).contains(p) {
            let i = choose|i: int| 0 <= i < (x + y).len() && (x + y)[i] == p;
            if i < x.len() {
                assert(x[i] == p);
            } else {
                assert(y[i - x.len()] == p);
            }
        }
        if x.contains(p) {
            let i = choose|i: int| 0 <= i < x.len() && x[i] == p;
            assert((x + y)[i] == p);
        }
        if y.contains(p) {
            let i = choose|i: int| 0 <= i < y.len() && y[i] == p;
            assert((x + y)[x.len() + i] == p);
        }
    }
    assert((x + y).to_set() == x.to_set().union(y.to_set()));
}

/// A load takes in the positions of every batch of a file.
proof fn lemma_load_batches(state: LoadModel, batches: Seq<Seq<(Seq<char>, i64)>>)
    requires
        state.columns is None || state.columns == Some((0int, 1int)),
        file_scoped(batches.flatten(), state.expected),
    ensures
        load_steps(state, batch_stream(batches)) matches Ok(end) && end == (LoadModel {
            columns: end.columns,
            rows: state.rows + batches.flatten().len(),
            positions: state.positions.union(positions_in(batches.flatten())),
            ..state
        }),
    decreases batches.len(),
{
    let stream = batch_stream(batches);
    let all = batches.flatten();
    if batches.len() == 0 {
        assert(positions_in(all) == Set::<u64>::empty());
        assert(state.positions.union(positions_in(all)) == state.positions);
    } else {
        let first = batches.first();
        let rest = batches.drop_first();
        assert(all == first + rest.flatten());
        assert(file_scoped(first, state.expected)) by {
            assert(forall|i: int| 0 <= i < first.len() ==> first[i] == all[i]);
        }
        assert(file_scoped(rest.flatten(), state.expected)) by {
            assert(forall|i: int|
                0 <= i < rest.flatten().len() ==> rest.flatten()[i] == all[first.len() + i]);
        }
        lemma_load_delete_batch(state, first);
        let next = load_step(state, delete_batch(first))->Ok_0;
        assert(stream[0] == Ok::<BatchModel, ErrorModel>(delete_batch(first)));
        assert(stream.drop_first() == batch_stream(rest));
        lemma_load_batches(next, rest);
        lemma_positions_join(first, rest.flatten());
        assert(next.positions.union(positions_in(rest.flatten())) == state.positions.union(
            positions_in(all),
        ));
    }
}

/// What a position delete file holds can be loaded back: a file whose rows all delete from one data
/// file, in whatever batches they come, loads for that data file to just the positions of its rows.
/// Rows that occur more than once collapse, while the number of rows that the manifest promises is
/// held against all of them.
pub proof fn lemma_written_rows_load(
    task: FileScanTaskDeleteFile,
    data_file: Seq<char>,
    batches: Seq<Seq<(Seq<char>, i64)>>,
)
    requires
        refused_task(task, data_file) is None,
        file_scoped(batches.flatten(), data_file),
    ensures
        loaded_positions(task, data_file, batch_stream(batches)) == (if task.record_count is Some
            && task.record_count->0 != batches.flatten().len() {
            Err::<Set<u64>, ErrorModel>(
                wrong_count(task.file_path@, batches.flatten().len(), task.record_count->0),
            )
        } else {
            Ok::<Set<u64>, ErrorModel>(positions_in(batches.flatten()))
        }),
{
    let start = load_start(task, data_file);
    lemma_load_batches(start, batches);
    assert(Set::<u64>::empty().union(positions_in(batches.flatten())) == positions_in(
        batches.flatten(),
    ));
}

/// The rows of a stream of batches are the rows of the batches.
proof fn lemma_stream_rows(batches: Seq<Seq<(Seq<char>, i64)>>)
    ensures
        stream_rows(batch_stream(batches)) == batches.flatten().len(),
    decreases batches.len(),
{
    if batches.len() > 0 {
        let rest = batches.drop_first();
        lemma_stream_rows(rest);
        assert(batch_stream(batches).drop_first() == batch_stream(rest));
        assert(batches.flatten() == batches.first() + rest.flatten());
    }
}

/// A position delete file can be loaded whatever its rows are, as long as their number fits.
pub proof fn lemma_written_rows_are_readable(state: LoadModel, batches: Seq<Seq<(Seq<char>, i64)>>)
    requires
        state.columns is None,
        state.rows + batches.flatten().len() <= u64::MAX,
    ensures
        readable(state, batch_stream(batches)),
{
    let stream = batch_stream(batches);
    lemma_stream_rows(batches);
    assert forall|i: int| 0 <= i < stream.len() implies (#[trigger] stream[i] matches Ok(batch)
        ==> batch.valid() && batch.columns.len() == 2) by {
        assert(stream[i] == Ok::<BatchModel, ErrorModel>(delete_batch(batches[i])));
        let batch = delete_batch(batches[i]);
        assert forall|c: int| 0 <= c < batch.columns.len() implies (#[trigger] batch.columns[c]).has_rows(
            batch.rows,
        ) by {
            assert(c == 0 || c == 1);
        }
    }
    lemma_uniform_stream_is_readable(state, stream, 2);
}

/// The positions that are deleted from `data_file`.
pub open spec fn deleted_from(deletes: Set<(Seq<char>, i64)>, data_file: Seq<char>) -> Set<u64> {
    Set::new(|p: u64| p <= i64::MAX && deletes.contains((data_file, p as i64)))
}

/// The output of a sorting writer round-trips through the loader: where everything that it
/// gathered deletes from one data file, the file of its run, in whatever batches, loads to just the
/// gathered positions, and the run has one row for each of them.
pub proof fn lemma_sorting_writer_round_trips(
    task: FileScanTaskDeleteFile,
    data_file: Seq<char>,
    deletes: Set<(Seq<char>, i64)>,
    run: Seq<(Seq<char>, i64)>,
    batches: Seq<Seq<(Seq<char>, i64)>>,
)
    requires
        refused_task(task, data_file) is None,
        forall|row: (Seq<char>, i64)| #[trigger] deletes.contains(row) ==> row.0 == data_file && row.1 >= 0,
        strictly_sorted_rows(run),
        run.to_set() == deletes,
        batches.flatten() == run,
        task.record_count is Some ==> task.record_count->0 == deletes.len(),
    ensures
        run.len() == deletes.len(),
        loaded_positions(task, data_file, batch_stream(batches)) == Ok::<Set<u64>, ErrorModel>(
            deleted_from(deletes, data_file),
        ),
{
    lemma_no_row_twice(run);
    run.unique_seq_to_set();
    assert(file_scoped(run, data_file)) by {
        assert forall|i: int| 0 <= i < run.len() implies (#[trigger] run[i]).0 == data_file
            && run[i].1 >= 0 by {
            assert(run.to_set().contains(run[i]));
        }
    }
    lemma_written_rows_load(task, data_file, batches);
    let numbers = run.map_values(|row: (Seq<char>, i64)| row.1 as u64);
    assert forall|p: u64| positions_in(run).contains(p) == deleted_from(deletes, data_file).contains(p) by {
        if numbers.contains(p) {
            let i = choose|i: int| 0 <= i < numbers.len() && numbers[i] == p;
            assert(run[i].0 == data_file && run[i].1 >= 0);
            assert(run.to_set().contains(run[i]));
            assert(run[i] == (data_file, p as i64));
        }
        if deleted_from(deletes, data_file).contains(p) {
            assert(run.to_set().contains((data_file, p as i64)));
            let i = choose|i: int| 0 <= i < run.len() && run[i] == (data_file, p as i64);
            assert(numbers[i] == p);
        }
    }
    assert(positions_in(run) == deleted_from(deletes, data_file));
}

/// A sorted run deletes just what was buffered: its file loads to the positions of the buffered
/// rows, whatever their order was.
pub proof fn lemma_sorted_run_round_trips(
    task: FileScanTaskDeleteFile,
    data_file: Seq<char>,
    buffered: Seq<(Seq<char>, i64)>,
    run: Seq<(Seq<char>, i64)>,
)
    requires
        refused_task(task, data_file) is None,
        file_scoped(buffered, data_file),
        sorted_run(run, buffered),
        task.record_count is Some ==> task.record_count->0 == buffered.len(),
    ensures
        loaded_positions(task, data_file, batch_stream(seq![run])) == Ok::<Set<u64>, ErrorModel>(
            positions_in(buffered),
        ),
{
    broadcast use group_to_multiset_ensures;

    assert(run.len() == run.to_multiset().len());
    assert(buffered.len() == buffered.to_multiset().len());
    assert forall|row: (Seq<char>, i64)| run.contains(row) == buffered.contains(row) by {
        assert(run.contains(row) <==> run.to_multiset().count(row) > 0);
        assert(buffered.contains(row) <==> buffered.to_multiset().count(row) > 0);
    }
    assert(file_scoped(run, data_file)) by {
        assert forall|i: int| 0 <= i < run.len() implies (#[trigger] run[i]).0 == data_file
            && run[i].1 >= 0 by {
            assert(run.contains(run[i]));
            let j = choose|j: int| 0 <= j < buffered.len() && buffered[j] == run[i];
            assert(buffered[j].0 == data_file && buffered[j].1 >= 0);
        }
    }
    let batches = seq![run];
    assert(batches.flatten() == run) by {
        assert(batches.drop_first() == Seq::<Seq<(Seq<char>, i64)>>::empty());
        assert(batches.flatten() == run + batches.drop_first().flatten());
        assert(batches.drop_first().flatten() == Seq::<(Seq<char>, i64)>::empty());
        assert(run + Seq::<(Seq<char>, i64)>::empty() == run);
    }
    lemma_written_rows_load(task, data_file, batches);
    let f = |row: (Seq<char>, i64)| row.1 as u64;
    let (x, y) = (run.map_values(f), buffered.map_values(f));
    assert forall|p: u64| x.to_set().contains(p) == y.to_set().contains(p) by {
        if x.contains(p) {
            let i = choose|i: int| 0 <= i < x.len() && x[i] == p;
            assert(run.contains(run[i]));
            let j = choose|j: int| 0 <= j < buffered.len() && buffered[j] == run[i];
            assert(y[j] == p);
        }
        if y.contains(p) {
            let i = choose|i: int| 0 <= i < y.len() && y[i] == p;
            assert(buffered.contains(buffered[i]));
            let j = choose|j: int| 0 <= j < run.len() && run[j] == buffered[i];
            assert(x[j] == p);
        }
    }
    assert(positions_in(run) == positions_in(buffered));
}

/// The positions of joined batches are those of each of them.
proof fn lemma_positions_of_all(batches: Seq<Seq<(Seq<char>, i64)>>, p: u64)
    ensures
        positions_in(batches.flatten()).contains(p) <==> exists|i: int|
            0 <= i < batches.len() && positions_in(#[trigger] batches[i]).contains(p),
    decreases batches.len(),
{
    if batches.len() > 0 {
        let rest = batches.drop_first();
        lemma_positions_of_all(rest, p);
        assert(batches.flatten() == batches[0] + rest.flatten());
        lemma_positions_join(batches[0], rest.flatten());
        if positions_in(rest.flatten()).contains(p) {
            let i = choose|i: int| 0 <= i < rest.len() && positions_in(#[trigger] rest[i]).contains(p);
            assert(batches[i + 1] == rest[i]);
        }
        if exists|i: int| 0 <= i < batches.len() && positions_in(#[trigger] batches[i]).contains(p) {
            let i = choose|i: int|
                0 <= i < batches.len() && positions_in(#[trigger] batches[i]).contains(p);
            if i > 0 {
                assert(rest[i - 1] == batches[i]);
            }
        }
    }
}

/// Splitting the deletes of a data file over several runs loses none of them: a position is among
/// the buffered rows just where the file of some run loads to it.
pub proof fn lemma_sorted_runs_cover_everything(
    tasks: Seq<FileScanTaskDeleteFile>,
    data_file: Seq<char>,
    buffers: Seq<Seq<(Seq<char>, i64)>>,
    runs: Seq<Seq<(Seq<char>, i64)>>,
    p: u64,
)
    requires
        tasks.len() == runs.len(),
        buffers.len() == runs.len(),
        forall|i: int|
            0 <= i < runs.len() ==> {
                &&& refused_task(tasks[i], data_file) is None
                &&& tasks[i].record_count is Some ==> tasks[i].record_count->0 == buffers[i].len()
                &&& file_scoped(buffers[i], data_file)
                &&& sorted_run(#[trigger] runs[i], buffers[i])
            },
    ensures
        positions_in(buffers.flatten()).contains(p) <==> exists|i: int|
            0 <= i < runs.len() && (loaded_positions(
                tasks[i],
                data_file,
                batch_stream(seq![#[trigger] runs[i]]),
            ) matches Ok(positions) && positions.contains(p)),
{
    lemma_positions_of_all(buffers, p);
    assert forall|i: int| 0 <= i < runs.len() implies loaded_positions(
        tasks[i],
        data_file,
        batch_stream(seq![#[trigger] runs[i]]),
    ) == Ok::<Set<u64>, ErrorModel>(positions_in(buffers[i])) by {
        lemma_sorted_run_round_trips(tasks[i], data_file, buffers[i], runs[i]);
    }
    if positions_in(buffers.flatten()).contains(p) {
        let i = choose|i: int| 0 <= i < buffers.len() && positions_in(#[trigger] buffers[i]).contains(p);
        let run = runs[i];
        assert(loaded_positions(tasks[i], data_file, batch_stream(seq![run])) matches Ok(positions)
            && positions.contains(p));
    }
}

/// A file whose rows all delete from one data file is committed with a reference to that file,
/// which is the reference that the loader holds against the data file.
pub proof fn lemma_file_scoped_rows_are_referenced(rows: Seq<(Seq<char>, i64)>, data_file: Seq<char>)
    requires
        rows.len() > 0,
        file_scoped(rows, data_file),
    ensures
        ReferenceModel::Nothing.with_paths(named_paths(rows)).only() == Some(data_file),
{
    let paths = named_paths(rows);
    lemma_only_reference(paths);
    assert(paths[0] == Some(rows[0].0));
    assert forall|i: int| 0 <= i < paths.len() implies #[trigger] paths[i] == Some(data_file) by {
        assert(rows[i].0 == data_file);
    }
}

} // verus!

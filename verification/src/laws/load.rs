//! What loading a position-delete file guarantees, said of single rows of the file.
use crate::arrow_batch::{contents, ArrowBatch};
use crate::batch::{has_null, BatchModel, ColumnModel};
use crate::bitmap::ascending;
use crate::delete_file_loader::{
    carries_id, load_start, load_step, load_steps, loaded_positions, positions_of,
    reads_delete_file, refused_row, refused_task, reserved_field, stream_model, stream_rows,
    DeleteFileRead, LoadModel,
};
use crate::error::{Error, ErrorKind, ErrorModel};
use crate::metadata::{DataContentType, DataFileFormat, FileScanTaskDeleteFile};
use crate::text::{decimal, parsed_i32};
use vstd::prelude::*;

verus! {

/// Field `i` is the only one whose id, read as a number, is `id`.
pub open spec fn only_field(field_ids: Seq<Option<Seq<char>>>, i: int, id: i32) -> bool {
    &&& 0 <= i < field_ids.len()
    &&& field_ids[i] matches Some(text)
    &&& parsed_i32(text) == Some(id)
    &&& forall|j: int|
        0 <= j < field_ids.len() && j != i ==> match #[trigger] field_ids[j] {
            Some(text) => parsed_i32(text) != Some(id),
            None => true,
        }
}

/// No field's id, read as a number, is `id`.
pub open spec fn no_field(field_ids: Seq<Option<Seq<char>>>, id: i32) -> bool {
    forall|j: int|
        0 <= j < field_ids.len() ==> match #[trigger] field_ids[j] {
            Some(text) => parsed_i32(text) != Some(id),
            None => true,
        }
}

/// The id of each of the fields `i` and `j`, read as a number, is `id`.
pub open spec fn two_fields(field_ids: Seq<Option<Seq<char>>>, i: int, j: int, id: i32) -> bool {
    &&& 0 <= i < j < field_ids.len()
    &&& field_ids[i] matches Some(text)
    &&& parsed_i32(text) == Some(id)
    &&& field_ids[j] matches Some(other)
    &&& parsed_i32(other) == Some(id)
}

/// The item is a batch, and each of its rows refers to `data_file` and to a position in it.
pub open spec fn deletes_only_from(
    item: Result<BatchModel, ErrorModel>,
    path: int,
    position: int,
    data_file: Seq<char>,
) -> bool {
    &&& item matches Ok(batch)
    &&& batch.columns[path] matches ColumnModel::Utf8(paths)
    &&& batch.columns[position] matches ColumnModel::Int64(positions)
    &&& forall|i: int|
        0 <= i < batch.rows ==> #[trigger] paths[i] == Some(data_file) && positions[i] is Some
            && positions[i]->0 >= 0
}

/// The item is a batch, and one of its rows holds the position `p`.
pub open spec fn holds_position(item: Result<BatchModel, ErrorModel>, position: int, p: u64) -> bool {
    &&& item matches Ok(batch)
    &&& batch.columns[position] matches ColumnModel::Int64(positions)
    &&& exists|i: int|
        0 <= i < batch.rows && #[trigger] positions[i] is Some && positions[i]->0 as int == p as int
}

/// The result is an error about invalid data with the given message.
pub open spec fn reports<T>(result: Result<T, ErrorModel>, message: Seq<char>) -> bool {
    result matches Err(error) && error.kind == ErrorKind::DataInvalid && error.message == message
}

/// Every batch of the stream is valid and has both columns.
pub open spec fn has_columns(
    stream: Seq<Result<BatchModel, ErrorModel>>,
    path: int,
    position: int,
) -> bool {
    forall|b: int|
        0 <= b < stream.len() ==> (#[trigger] stream[b] matches Ok(batch) ==> {
            &&& batch.valid()
            &&& 0 <= path < batch.columns.len()
            &&& 0 <= position < batch.columns.len()
        })
}

/// In the first batch of the stream, where there is one, the two columns are the only ones with the
/// two ids that are reserved for position deletes.
pub open spec fn reserved_columns(
    stream: Seq<Result<BatchModel, ErrorModel>>,
    path: int,
    position: int,
) -> bool {
    stream.len() > 0 ==> (stream[0] matches Ok(batch) ==> {
        &&& only_field(batch.field_ids, path, 2147483546)
        &&& only_field(batch.field_ids, position, 2147483545)
    })
}

/// What is known of a delete file before it is read speaks for a Parquet file of position deletes
/// of `data_file`.
pub open spec fn task_deletes_from(task: FileScanTaskDeleteFile, data_file: Seq<char>) -> bool {
    &&& task.file_type == DataContentType::PositionDeletes
    &&& task.file_format == DataFileFormat::Parquet
    &&& task.equality_ids is None
    &&& task.content_offset is None
    &&& task.content_size_in_bytes is None
    &&& task.referenced_data_file matches Some(referenced) ==> referenced@ == data_file
}

/// A task is refused just where it is not one of position deletes of the data file, with an error
/// that names the first thing that is wrong with it.
pub proof fn lemma_refused_tasks(task: FileScanTaskDeleteFile, data_file: Seq<char>)
    ensures
        refused_task(task, data_file) is None <==> task_deletes_from(task, data_file),
        (task.file_type != DataContentType::PositionDeletes || task.file_format
            != DataFileFormat::Parquet || task.equality_ids is Some) ==> refused_task(
            task,
            data_file,
        )->0.kind == ErrorKind::FeatureUnsupported && refused_task(task, data_file)->0.message
            == "Expected a V2 Parquet position-delete file, got "@ + task.file_type.name_spec() + "/"@
            + task.file_format.name_spec() + " at "@ + task.file_path@,
        task.file_type == DataContentType::PositionDeletes && task.file_format
            == DataFileFormat::Parquet && task.equality_ids is None && (task.content_offset is Some
            || task.content_size_in_bytes is Some) ==> refused_task(task, data_file)->0.message
            == "V2 Parquet position-delete file "@ + task.file_path@
            + " must not carry deletion-vector content coordinates"@,
        task.file_type == DataContentType::PositionDeletes && task.file_format
            == DataFileFormat::Parquet && task.equality_ids is None && task.content_offset is None
            && task.content_size_in_bytes is None && refused_task(task, data_file) is Some
            ==> refused_task(task, data_file)->0.message == "Position-delete file "@ + task.file_path@
            + " references "@ + task.referenced_data_file->0@ + ", expected "@ + data_file,
        refused_task(task, data_file) is Some && refused_task(task, data_file)->0.kind
            != ErrorKind::FeatureUnsupported ==> refused_task(task, data_file)->0.kind
            == ErrorKind::DataInvalid && task.file_type == DataContentType::PositionDeletes
            && task.file_format == DataFileFormat::Parquet && task.equality_ids is None,
        forall|stream: Seq<Result<BatchModel, ErrorModel>>|
            refused_task(task, data_file) matches Some(error) ==> #[trigger] loaded_positions(
                task,
                data_file,
                stream,
            ) == Err::<Set<u64>, ErrorModel>(error),
{
}

/// A column is found just where its id occurs once; an id that occurs nowhere or twice is reported.
pub proof fn lemma_reserved_fields(
    field_ids: Seq<Option<Seq<char>>>,
    id: i32,
    name: Seq<char>,
    file: Seq<char>,
)
    ensures
        forall|i: int|
            reserved_field(field_ids, id, name, file) == Ok::<int, ErrorModel>(i) <==> #[trigger] only_field(
                field_ids,
                i,
                id,
            ),
        no_field(field_ids, id) ==> reports(
            reserved_field(field_ids, id, name, file),
            "Position-delete file "@ + file + " has no `"@ + name
                + "` column with reserved field id "@ + decimal(id as int),
        ),
        forall|i: int, j: int| #[trigger]
            two_fields(field_ids, i, j, id) ==> reports(
                reserved_field(field_ids, id, name, file),
                "Position-delete file "@ + file + " has multiple columns with reserved field id "@
                    + decimal(id as int),
            ),
{
    assert forall|i: int| 0 <= i < field_ids.len() implies #[trigger] carries_id(field_ids, i, id) == (
    match field_ids[i] {
        Some(text) => parsed_i32(text) == Some(id),
        None => false,
    }) by {}
    assert forall|i: int| #[trigger]
        only_field(field_ids, i, id) implies reserved_field(field_ids, id, name, file) == Ok::<
        int,
        ErrorModel,
    >(i) by {
        assert(carries_id(field_ids, i, id));
        assert forall|j: int| 0 <= j < field_ids.len() && j != i implies !#[trigger] carries_id(
            field_ids,
            j,
            id,
        ) by {
            assert(field_ids[j] == field_ids[j]);
        }
    }
    assert forall|i: int|
        reserved_field(field_ids, id, name, file) == Ok::<int, ErrorModel>(i) implies #[trigger] only_field(
        field_ids,
        i,
        id,
    ) by {
        let k = choose|k: int| 0 <= k < field_ids.len() && #[trigger] carries_id(field_ids, k, id);
        assert(k == i && carries_id(field_ids, i, id));
        assert forall|j: int| 0 <= j < field_ids.len() && j != i implies match #[trigger] field_ids[j] {
            Some(text) => parsed_i32(text) != Some(id),
            None => true,
        } by {
            if carries_id(field_ids, j, id) {
                if i < j {
                    assert(carries_id(field_ids, i, id) && carries_id(field_ids, j, id));
                } else {
                    assert(carries_id(field_ids, j, id) && carries_id(field_ids, i, id));
                }
            }
        }
    }
    assert forall|i: int, j: int| #[trigger] two_fields(field_ids, i, j, id) implies reports(
        reserved_field(field_ids, id, name, file),
        "Position-delete file "@ + file + " has multiple columns with reserved field id "@
            + decimal(id as int),
    ) by {
        assert(carries_id(field_ids, i, id) && carries_id(field_ids, j, id));
    }
    if no_field(field_ids, id) {
        assert forall|j: int| 0 <= j < field_ids.len() implies !#[trigger] carries_id(field_ids, j, id) by {
            assert(field_ids[j] == field_ids[j]);
        }
    }
}

/// The state knows the two columns, or will find them in the first batch of the stream.
spec fn finds_columns(
    state: LoadModel,
    stream: Seq<Result<BatchModel, ErrorModel>>,
    path: int,
    position: int,
) -> bool {
    match state.columns {
        Some(columns) => columns == (path, position),
        None => reserved_columns(stream, path, position),
    }
}

/// A row is refused just where it refers to another data file or to no position.
proof fn lemma_refused_row(
    paths: Seq<Option<Seq<char>>>,
    positions: Seq<Option<i64>>,
    file: Seq<char>,
    expected: Seq<char>,
    i: int,
)
    requires
        0 <= i <= paths.len(),
    ensures
        refused_row(paths, positions, file, expected, i) is None <==> forall|k: int|
            i <= k < paths.len() ==> #[trigger] paths[k]->0 == expected && positions[k]->0 >= 0,
    decreases paths.len() - i,
{
    if i < paths.len() {
        lemma_refused_row(paths, positions, file, expected, i + 1);
        if refused_row(paths, positions, file, expected, i) is None {
            assert forall|k: int| i <= k < paths.len() implies #[trigger] paths[k]->0 == expected
                && positions[k]->0 >= 0 by {
                if k > i {
                    assert(i + 1 <= k);
                }
            }
        } else if refused_row(paths, positions, file, expected, i + 1) is None {
            assert(!(paths[i]->0 == expected && positions[i]->0 >= 0));
        }
    }
}

/// The first row that is refused decides what is reported.
proof fn lemma_first_refused_row(
    paths: Seq<Option<Seq<char>>>,
    positions: Seq<Option<i64>>,
    file: Seq<char>,
    expected: Seq<char>,
    from: int,
    row: int,
)
    requires
        0 <= from <= row <= paths.len(),
        forall|k: int|
            from <= k < row ==> #[trigger] paths[k]->0 == expected && positions[k]->0 >= 0,
    ensures
        refused_row(paths, positions, file, expected, from) == refused_row(
            paths,
            positions,
            file,
            expected,
            row,
        ),
    decreases row - from,
{
    if from < row {
        assert(paths[from]->0 == expected);
        lemma_first_refused_row(paths, positions, file, expected, from + 1, row);
    }
}

proof fn lemma_load_step(state: LoadModel, batch: BatchModel, path: int, position: int)
    requires
        batch.valid(),
        0 <= path < batch.columns.len(),
        0 <= position < batch.columns.len(),
        finds_columns(state, seq![Ok(batch)], path, position),
    ensures
        load_step(state, batch) is Ok <==> deletes_only_from(Ok(batch), path, position, state.expected),
        load_step(state, batch) matches Ok(next) ==> {
            &&& next.columns == Some((path, position))
            &&& next.file == state.file
            &&& next.expected == state.expected
            &&& next.record_count == state.record_count
            &&& next.rows == state.rows + batch.rows
            &&& forall|p: u64| #[trigger]
                next.positions.contains(p) <==> state.positions.contains(p) || holds_position(
                    Ok(batch),
                    position,
                    p,
                )
        },
{
    lemma_reserved_fields(batch.field_ids, 2147483546, "file_path"@, state.file);
    lemma_reserved_fields(batch.field_ids, 2147483545, "pos"@, state.file);
    if state.columns is None {
        assert(seq![Ok::<BatchModel, ErrorModel>(batch)][0] == Ok::<BatchModel, ErrorModel>(batch));
        assert(only_field(batch.field_ids, path, 2147483546));
        assert(only_field(batch.field_ids, position, 2147483545));
    }
    match (batch.columns[path], batch.columns[position]) {
        (ColumnModel::Utf8(paths), ColumnModel::Int64(positions)) => {
            assert(batch.columns[path].has_rows(batch.rows));
            assert(batch.columns[position].has_rows(batch.rows));
            lemma_refused_row(paths, positions, state.file, state.expected, 0);
            if deletes_only_from(Ok(batch), path, position, state.expected) {
                assert forall|i: int| 0 <= i < positions.len() implies #[trigger] positions[i] is Some by {
                    assert(paths[i] == Some(state.expected));
                }
                assert(!has_null(paths));
                assert(!has_null(positions));
            }
            if let Ok(next) = load_step(state, batch) {
                assert forall|i: int| 0 <= i < batch.rows implies #[trigger] paths[i] == Some(
                    state.expected,
                ) && positions[i] is Some && positions[i]->0 >= 0 by {
                    assert(paths[i] is Some);
                    assert(positions[i] is Some);
                }
                let f = |p: Option<i64>| p->0 as u64;
                let all = positions.map_values(f);
                assert forall|p: u64| #[trigger]
                    next.positions.contains(p) <==> state.positions.contains(p) || holds_position(
                        Ok(batch),
                        position,
                        p,
                    ) by {
                    if all.contains(p) {
                        let i = choose|i: int| 0 <= i < all.len() && all[i] == p;
                        assert(paths[i] == Some(state.expected));
                        assert(positions[i] is Some);
                    }
                    if holds_position(Ok(batch), position, p) {
                        let i = choose|i: int|
                            0 <= i < batch.rows && #[trigger] positions[i] is Some
                                && positions[i]->0 as int == p as int;
                        assert(all[i] == p);
                    }
                    assert(positions_of(positions).contains(p) == all.contains(p));
                }
            }
        },
        _ => {},
    }
}

proof fn lemma_load_steps(
    state: LoadModel,
    stream: Seq<Result<BatchModel, ErrorModel>>,
    path: int,
    position: int,
)
    requires
        has_columns(stream, path, position),
        finds_columns(state, stream, path, position),
    ensures
        load_steps(state, stream) is Ok <==> forall|b: int|
            0 <= b < stream.len() ==> deletes_only_from(
                #[trigger] stream[b],
                path,
                position,
                state.expected,
            ),
        load_steps(state, stream) matches Ok(end) ==> {
            &&& end.record_count == state.record_count
            &&& end.rows == state.rows + stream_rows(stream)
            &&& stream.len() > 0 ==> end.columns == Some((path, position))
            &&& stream.len() == 0 ==> end.columns == state.columns
            &&& end.file == state.file
            &&& end.expected == state.expected
            &&& forall|p: u64| #[trigger]
                end.positions.contains(p) <==> state.positions.contains(p) || exists|b: int|
                    0 <= b < stream.len() && holds_position(#[trigger] stream[b], position, p)
        },
    decreases stream.len(),
{
    if stream.len() > 0 {
        if let Ok(batch) = stream[0] {
            lemma_load_step(state, batch, path, position);
            let rest = stream.drop_first();
            if let Ok(next) = load_step(state, batch) {
                assert forall|b: int| 0 <= b < rest.len() implies (#[trigger] rest[b] matches Ok(
                    batch,
                ) ==> {
                    &&& batch.valid()
                    &&& 0 <= path < batch.columns.len()
                    &&& 0 <= position < batch.columns.len()
                }) by {
                    assert(rest[b] == stream[b + 1]);
                }
                lemma_load_steps(next, rest, path, position);
                if load_steps(state, stream) is Ok {
                    assert forall|b: int| 0 <= b < stream.len() implies deletes_only_from(
                        #[trigger] stream[b],
                        path,
                        position,
                        state.expected,
                    ) by {
                        if b > 0 {
                            assert(rest[b - 1] == stream[b]);
                        }
                    }
                    let end = load_steps(state, stream)->Ok_0;
                    assert forall|p: u64| #[trigger]
                        end.positions.contains(p) <==> state.positions.contains(p) || exists|b: int|
                            0 <= b < stream.len() && holds_position(
                                #[trigger] stream[b],
                                position,
                                p,
                            ) by {
                        if exists|b: int|
                            0 <= b < rest.len() && holds_position(#[trigger] rest[b], position, p) {
                            let b = choose|b: int|
                                0 <= b < rest.len() && holds_position(#[trigger] rest[b], position, p);
                            assert(holds_position(stream[b + 1], position, p));
                        }
                        if exists|b: int|
                            0 <= b < stream.len() && holds_position(#[trigger] stream[b], position, p) {
                            let b = choose|b: int|
                                0 <= b < stream.len() && holds_position(
                                    #[trigger] stream[b],
                                    position,
                                    p,
                                );
                            if b > 0 {
                                assert(holds_position(rest[b - 1], position, p));
                            } else {
                                assert(next.positions.contains(p));
                            }
                        }
                        assert(next.positions.contains(p) <==> state.positions.contains(p)
                            || holds_position(stream[0], position, p));
                    }
                } else {
                    let b = choose|b: int|
                        0 <= b < rest.len() && !deletes_only_from(
                            #[trigger] rest[b],
                            path,
                            position,
                            state.expected,
                        );
                    assert(!deletes_only_from(stream[b + 1], path, position, state.expected));
                }
            } else {
                assert(!deletes_only_from(stream[0], path, position, state.expected));
            }
        } else {
            assert(!deletes_only_from(stream[0], path, position, state.expected));
        }
    }
}

/// A delete file loads just where its task speaks for position deletes of the data file, every item
/// that is read is a batch, every row of every batch refers to the data file and to a position that
/// is not negative, and the rows are as many as promised. The index then holds just the positions
/// of those rows.
pub proof fn lemma_loads_just_the_rows_of_the_data_file(
    task: FileScanTaskDeleteFile,
    data_file: Seq<char>,
    stream: Seq<Result<BatchModel, ErrorModel>>,
    path: int,
    position: int,
)
    requires
        has_columns(stream, path, position),
        reserved_columns(stream, path, position),
    ensures
        loaded_positions(task, data_file, stream) is Ok <==> {
            &&& task_deletes_from(task, data_file)
            &&& forall|b: int|
                0 <= b < stream.len() ==> deletes_only_from(
                    #[trigger] stream[b],
                    path,
                    position,
                    data_file,
                )
            &&& task.record_count matches Some(count) ==> stream_rows(stream) == count
        },
        loaded_positions(task, data_file, stream) matches Ok(positions) ==> forall|p: u64| #[trigger]
            positions.contains(p) <==> exists|b: int|
                0 <= b < stream.len() && holds_position(#[trigger] stream[b], position, p),
{
    lemma_refused_tasks(task, data_file);
    lemma_load_steps(load_start(task, data_file), stream, path, position);
}

/// Where a file with at least one batch loads, its first batch has each of the two reserved ids on
/// exactly one column.
pub proof fn lemma_loaded_files_have_both_columns(
    task: FileScanTaskDeleteFile,
    data_file: Seq<char>,
    stream: Seq<Result<BatchModel, ErrorModel>>,
)
    requires
        stream.len() > 0,
        loaded_positions(task, data_file, stream) is Ok,
    ensures
        stream[0] is Ok,
        exists|path: int| #[trigger] only_field(stream[0]->Ok_0.field_ids, path, 2147483546),
        exists|position: int| #[trigger]
            only_field(stream[0]->Ok_0.field_ids, position, 2147483545),
{
    let ids = stream[0]->Ok_0.field_ids;
    let file = task.file_path@;
    lemma_reserved_fields(ids, 2147483546, "file_path"@, file);
    lemma_reserved_fields(ids, 2147483545, "pos"@, file);
    let start = load_start(task, data_file);
    assert(load_step(start, stream[0]->Ok_0) is Ok);
    assert(only_field(ids, reserved_field(ids, 2147483546, "file_path"@, file)->Ok_0, 2147483546));
    assert(only_field(ids, reserved_field(ids, 2147483545, "pos"@, file)->Ok_0, 2147483545));
}

/// A file with a row whose `file_path` is not the data file, or whose `pos` is null or negative,
/// does not load, whichever batch and row that is.
pub proof fn lemma_a_foreign_row_is_refused(
    task: FileScanTaskDeleteFile,
    data_file: Seq<char>,
    stream: Seq<Result<BatchModel, ErrorModel>>,
    path: int,
    position: int,
    b: int,
    i: int,
)
    requires
        has_columns(stream, path, position),
        reserved_columns(stream, path, position),
        0 <= b < stream.len(),
        stream[b] matches Ok(batch) && 0 <= i < batch.rows && match (
            batch.columns[path],
            batch.columns[position],
        ) {
            (ColumnModel::Utf8(paths), ColumnModel::Int64(positions)) => paths[i] != Some(data_file)
                || positions[i] is None || positions[i]->0 < 0,
            _ => true,
        },
    ensures
        loaded_positions(task, data_file, stream) is Err,
{
    lemma_loads_just_the_rows_of_the_data_file(task, data_file, stream, path, position);
    if deletes_only_from(stream[b], path, position, data_file) {
        let batch = stream[b]->Ok_0;
        let paths = batch.columns[path]->Utf8_0;
        assert(paths[i] == Some(data_file));
    }
}

proof fn lemma_load_prefix(
    state: LoadModel,
    stream: Seq<Result<BatchModel, ErrorModel>>,
    b: int,
)
    requires
        0 <= b < stream.len(),
        load_steps(state, stream.take(b)) is Ok,
    ensures
        load_steps(state, stream) == match stream[b] {
            Err(error) => Err::<LoadModel, ErrorModel>(error),
            Ok(batch) => match load_step(load_steps(state, stream.take(b))->Ok_0, batch) {
                Err(error) => Err(error),
                Ok(next) => load_steps(next, stream.skip(b + 1)),
            },
        },
    decreases b,
{
    if b == 0 {
        assert(stream.take(0).len() == 0);
        assert(stream.skip(1) == stream.drop_first());
    } else {
        let rest = stream.drop_first();
        assert(stream.take(b)[0] == stream[0]);
        assert(stream.take(b).drop_first() == rest.take(b - 1));
        assert(rest[b - 1] == stream[b]);
        assert(rest.skip(b) == stream.skip(b + 1));
        let next = load_step(state, stream[0]->Ok_0)->Ok_0;
        lemma_load_prefix(next, rest, b - 1);
    }
}

/// The first thing that is wrong decides the error. An item that could not be read is reported as
/// it is. In a batch, the type of `file_path` comes first, then that of `pos`, then nulls, then the
/// rows from the first on, and in a row the data file before the position.
pub proof fn lemma_the_first_fault_is_reported(
    task: FileScanTaskDeleteFile,
    data_file: Seq<char>,
    stream: Seq<Result<BatchModel, ErrorModel>>,
    path: int,
    position: int,
    b: int,
)
    requires
        has_columns(stream, path, position),
        reserved_columns(stream, path, position),
        task_deletes_from(task, data_file),
        0 <= b < stream.len(),
        forall|k: int|
            0 <= k < b ==> deletes_only_from(#[trigger] stream[k], path, position, data_file),
    ensures
        match stream[b] {
            Err(error) => loaded_positions(task, data_file, stream) == Err::<Set<u64>, ErrorModel>(error),
            Ok(batch) => match (batch.columns[path], batch.columns[position]) {
                (ColumnModel::Utf8(paths), ColumnModel::Int64(positions)) => {
                    &&& (exists|i: int|
                        0 <= i < batch.rows && (#[trigger] paths[i] is None || positions[i] is None))
                        ==> reports(
                            loaded_positions(task, data_file, stream),
                            "Position-delete file "@ + task.file_path@ + " contains nulls"@,
                        )
                    &&& forall|i: int|
                        {
                            &&& 0 <= i < batch.rows
                            &&& forall|k: int|
                                0 <= k < batch.rows ==> #[trigger] paths[k] is Some && positions[k] is Some
                            &&& forall|k: int|
                                0 <= k < i ==> #[trigger] paths[k] == Some(data_file)
                                    && positions[k]->0 >= 0
                        } ==> {
                            &&& #[trigger] paths[i] != Some(data_file) ==> reports(
                                loaded_positions(task, data_file, stream),
                                "File-scoped position-delete file "@ + task.file_path@
                                    + " contains target "@ + paths[i]->0 + ", expected "@
                                    + data_file,
                            )
                            &&& paths[i] == Some(data_file) && positions[i]->0 < 0 ==> reports(
                                loaded_positions(task, data_file, stream),
                                "Position-delete file "@ + task.file_path@
                                    + " contains a negative row position "@
                                    + decimal(positions[i]->0 as int),
                            )
                        }
                },
                (ColumnModel::Utf8(_), _) => reports(
                    loaded_positions(task, data_file, stream),
                    "Position-delete file "@ + task.file_path@ + " has a non-Int64 pos column"@,
                ),
                _ => reports(
                    loaded_positions(task, data_file, stream),
                    "Position-delete file "@ + task.file_path@
                        + " has a non-Utf8 file_path column"@,
                ),
            },
        },
{
    let start = load_start(task, data_file);
    let front = stream.take(b);
    lemma_refused_tasks(task, data_file);
    assert forall|k: int| 0 <= k < front.len() implies (#[trigger] front[k] matches Ok(batch) ==> {
        &&& batch.valid()
        &&& 0 <= path < batch.columns.len()
        &&& 0 <= position < batch.columns.len()
    }) by {
        assert(front[k] == stream[k]);
    }
    lemma_load_steps(start, front, path, position);
    assert forall|k: int| 0 <= k < front.len() implies deletes_only_from(
        #[trigger] front[k],
        path,
        position,
        data_file,
    ) by {
        assert(front[k] == stream[k]);
    }
    assert(load_steps(start, front) is Ok);
    let before = load_steps(start, front)->Ok_0;
    lemma_load_prefix(start, stream, b);
    if let Ok(batch) = stream[b] {
        lemma_reserved_fields(batch.field_ids, 2147483546, "file_path"@, task.file_path@);
        lemma_reserved_fields(batch.field_ids, 2147483545, "pos"@, task.file_path@);
        if before.columns is None {
            assert(only_field(batch.field_ids, path, 2147483546));
            assert(only_field(batch.field_ids, position, 2147483545));
        }
        assert(batch.columns[path].has_rows(batch.rows));
        assert(batch.columns[position].has_rows(batch.rows));
        if let (ColumnModel::Utf8(paths), ColumnModel::Int64(positions)) = (
            batch.columns[path],
            batch.columns[position],
        ) {
            if exists|i: int|
                0 <= i < batch.rows && (#[trigger] paths[i] is None || positions[i] is None) {
                let i = choose|i: int|
                    0 <= i < batch.rows && (#[trigger] paths[i] is None || positions[i] is None);
                assert(paths[i] is None || positions[i] is None);
                assert(has_null(paths) || has_null(positions));
            }
            assert forall|i: int|
                {
                    &&& 0 <= i < batch.rows
                    &&& forall|k: int|
                        0 <= k < batch.rows ==> #[trigger] paths[k] is Some && positions[k] is Some
                    &&& forall|k: int|
                        0 <= k < i ==> #[trigger] paths[k] == Some(data_file) && positions[k]->0 >= 0
                } implies {
                &&& #[trigger] paths[i] != Some(data_file) ==> reports(
                    loaded_positions(task, data_file, stream),
                    "File-scoped position-delete file "@ + task.file_path@ + " contains target "@
                        + paths[i]->0 + ", expected "@ + data_file,
                )
                &&& paths[i] == Some(data_file) && positions[i]->0 < 0 ==> reports(
                    loaded_positions(task, data_file, stream),
                    "Position-delete file "@ + task.file_path@
                        + " contains a negative row position "@ + decimal(positions[i]->0 as int),
                )
            } by {
                assert(!has_null(paths));
                assert forall|k: int| 0 <= k < positions.len() implies #[trigger] positions[k] is Some by {
                    assert(paths[k] is Some);
                }
                assert(!has_null(positions));
                assert(paths[i] is Some);
                lemma_first_refused_row(paths, positions, task.file_path@, data_file, 0, i);
            }
        }
    }
}

/// A file whose first batch lacks one of the two reserved ids, or has it twice, does not load. The
/// `file_path` column comes first.
pub proof fn lemma_missing_columns_are_reported(
    task: FileScanTaskDeleteFile,
    data_file: Seq<char>,
    stream: Seq<Result<BatchModel, ErrorModel>>,
    i: int,
    j: int,
)
    requires
        task_deletes_from(task, data_file),
        stream.len() > 0,
        stream[0] is Ok,
    ensures
        no_field(stream[0]->Ok_0.field_ids, 2147483546) ==> reports(
            loaded_positions(task, data_file, stream),
            "Position-delete file "@ + task.file_path@ + " has no `"@ + "file_path"@
                + "` column with reserved field id "@ + decimal(2147483546),
        ),
        two_fields(stream[0]->Ok_0.field_ids, i, j, 2147483546) ==> reports(
            loaded_positions(task, data_file, stream),
            "Position-delete file "@ + task.file_path@
                + " has multiple columns with reserved field id "@ + decimal(2147483546),
        ),
        only_field(stream[0]->Ok_0.field_ids, i, 2147483546) && no_field(
            stream[0]->Ok_0.field_ids,
            2147483545,
        ) ==> reports(
            loaded_positions(task, data_file, stream),
            "Position-delete file "@ + task.file_path@ + " has no `"@ + "pos"@
                + "` column with reserved field id "@ + decimal(2147483545),
        ),
        two_fields(stream[0]->Ok_0.field_ids, i, j, 2147483545) ==> loaded_positions(
            task,
            data_file,
            stream,
        ) is Err,
{
    let ids = stream[0]->Ok_0.field_ids;
    lemma_refused_tasks(task, data_file);
    lemma_reserved_fields(ids, 2147483546, "file_path"@, task.file_path@);
    lemma_reserved_fields(ids, 2147483545, "pos"@, task.file_path@);
}

/// A file whose rows are in order but not as many as promised does not load, and both numbers are
/// reported.
pub proof fn lemma_a_wrong_count_is_reported(
    task: FileScanTaskDeleteFile,
    data_file: Seq<char>,
    stream: Seq<Result<BatchModel, ErrorModel>>,
    path: int,
    position: int,
    count: u64,
)
    requires
        has_columns(stream, path, position),
        reserved_columns(stream, path, position),
        task_deletes_from(task, data_file),
        forall|b: int|
            0 <= b < stream.len() ==> deletes_only_from(#[trigger] stream[b], path, position, data_file),
        task.record_count == Some(count),
        stream_rows(stream) != count,
    ensures
        reports(
            loaded_positions(task, data_file, stream),
            "Position-delete file "@ + task.file_path@ + " contains "@ + decimal(
                stream_rows(stream) as int,
            ) + " rows, expected "@ + decimal(count as int) + " from record_count"@,
        ),
{
    lemma_refused_tasks(task, data_file);
    lemma_load_steps(load_start(task, data_file), stream, path, position);
}

/// Each kind of content and each file format goes by its own name.
pub proof fn lemma_names(content: DataContentType, format: DataFileFormat)
    ensures
        content.name_spec() == match content {
            DataContentType::Data => "Data"@,
            DataContentType::PositionDeletes => "PositionDeletes"@,
            DataContentType::EqualityDeletes => "EqualityDeletes"@,
        },
        format.name_spec() == match format {
            DataFileFormat::Avro => "Avro"@,
            DataFileFormat::Orc => "Orc"@,
            DataFileFormat::Parquet => "Parquet"@,
            DataFileFormat::Puffin => "Puffin"@,
        },
{
}

/// Positions in ascending order: each is smaller than the next, so none is listed twice.
pub proof fn lemma_listed_positions(positions: Seq<u64>)
    requires
        ascending(positions),
    ensures
        forall|i: int| 0 <= i < positions.len() - 1 ==> positions[i] < #[trigger] positions[i + 1],
        positions.no_duplicates(),
{
}

/// The items of a stream are taken one for one.
pub proof fn lemma_stream_items(stream: Seq<Result<ArrowBatch, Error>>)
    ensures
        stream_model(stream).len() == stream.len(),
        forall|b: int|
            0 <= b < stream.len() ==> match stream[b] {
                Ok(batch) => #[trigger] stream_model(stream)[b] == Ok::<BatchModel, ErrorModel>(
                    contents(batch),
                ),
                Err(error) => stream_model(stream)[b] == Err::<BatchModel, ErrorModel>(error@),
            },
{
}

/// The rows of a stream are those of its first item and those of the others.
pub proof fn lemma_rows_of_a_stream(
    batch: BatchModel,
    error: ErrorModel,
    stream: Seq<Result<BatchModel, ErrorModel>>,
)
    ensures
        stream_rows(Seq::empty()) == 0,
        stream_rows(seq![Ok(batch)] + stream) == batch.rows + stream_rows(stream),
        stream_rows(seq![Err(error)] + stream) == stream_rows(stream),
{
    let a = seq![Ok::<BatchModel, ErrorModel>(batch)] + stream;
    let b = seq![Err::<BatchModel, ErrorModel>(error)] + stream;
    assert(a[0] == Ok::<BatchModel, ErrorModel>(batch));
    assert(a.drop_first() == stream);
    assert(b[0] == Err::<BatchModel, ErrorModel>(error));
    assert(b.drop_first() == stream);
}

/// A plan to read a delete file names the file, its size and its key as they are given, and asks
/// for the equality columns, or for every column of the schema where there are none.
pub proof fn lemma_planned_reads(
    read: DeleteFileRead,
    task: FileScanTaskDeleteFile,
    schema_field_ids: Seq<i32>,
)
    requires
        reads_delete_file(read, task, schema_field_ids),
    ensures
        read.file_path@ == task.file_path@,
        read.file_size_in_bytes == task.file_size_in_bytes,
        read.key_metadata is Some <==> task.key_metadata is Some,
        task.key_metadata matches Some(key) ==> read.key_metadata->0@ == key@,
        task.equality_ids matches Some(ids) ==> read.field_ids@ == ids@,
        task.equality_ids is None ==> read.field_ids@ == schema_field_ids,
{
}

} // verus!

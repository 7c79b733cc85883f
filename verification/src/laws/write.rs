//! What the writers of position deletes guarantee, said of single rows.
use crate::batch::{has_null, optional_texts, BatchModel, Column, ColumnModel, RowBatch};
use crate::error::{ErrorKind, ErrorModel};
use crate::laws::text::lemma_sorted_rows_stand_in_order;
use crate::metadata::{DataContentType, DataFile, PartitionKey};
use crate::position_delete_writer::{
    delete_batch, inner_closed, lemma_only_reference, named_paths, position_delete_file,
    refused_build, row_numbers, row_paths, row_views, ReferenceModel,
};
use crate::position_map::next_batch_len;
use crate::sorted_position_delete_writer::{
    accepted_rows, all_parts, due_parts, full_parts, has_delete_columns, leading_rows,
    lemma_all_parts, lemma_due_parts, lemma_full_parts, lemma_sorted_runs_keep_rows, part_left,
    refused_batch, run_views, sorted_run, sorted_runs, sorted_writer_closed, waiting_rows,
    SortedPositionDeleteWriter,
};
use crate::sorting_position_only_delete_writer::{
    batch_rows, column_rows, has_negative, negative_row, refused_deletes, row_at,
    sorting_writer_closed, zero_flush_rows,
};
use crate::text::{decimal, text_before};
use vstd::prelude::*;

verus! {

/// A batch of delete rows holds each row as it is, also where the rows refer to more than one data
/// file.
pub proof fn lemma_delete_batch_holds_every_row(rows: Seq<(Seq<char>, i64)>)
    ensures
        delete_batch(rows).rows == rows.len(),
        delete_batch(rows).columns.len() == 2,
        delete_batch(rows).columns[0] matches ColumnModel::Utf8(paths) && paths.len() == rows.len()
            && forall|i: int| 0 <= i < rows.len() ==> (#[trigger] paths[i]) == Some(rows[i].0),
        delete_batch(rows).columns[1] matches ColumnModel::Int64(positions) && positions.len()
            == rows.len() && forall|i: int|
            0 <= i < rows.len() ==> (#[trigger] positions[i]) == Some(rows[i].1),
        delete_batch(rows).names == seq!["file_path"@, "pos"@],
        delete_batch(rows).nullable == seq![false, false],
        delete_batch(rows).field_ids.len() == 2,
        delete_batch(rows).field_ids[0] == Some(decimal(2147483546)),
        delete_batch(rows).field_ids[1] == Some(decimal(2147483545)),
{
}

/// Two different sequences of delete rows make two different batches.
pub proof fn lemma_delete_batches_tell_rows_apart(
    a: Seq<(Seq<char>, i64)>,
    b: Seq<(Seq<char>, i64)>,
)
    requires
        delete_batch(a) == delete_batch(b),
    ensures
        a == b,
{
    lemma_delete_batch_holds_every_row(a);
    lemma_delete_batch_holds_every_row(b);
    assert forall|i: int| 0 <= i < a.len() implies a[i] == b[i] by {
        let paths = delete_batch(a).columns[0]->Utf8_0;
        let positions = delete_batch(a).columns[1]->Int64_0;
        assert(paths[i] == Some(a[i].0) && paths[i] == Some(b[i].0));
        assert(positions[i] == Some(a[i].1) && positions[i] == Some(b[i].1));
    }
    assert(a == b);
}

/// The mathematical value of rows, of their paths and of their positions is made row by row.
pub proof fn lemma_row_views(rows: Seq<(String, i64)>)
    ensures
        row_views(rows).len() == rows.len(),
        row_paths(row_views(rows)).len() == rows.len(),
        row_numbers(row_views(rows)).len() == rows.len(),
        named_paths(row_views(rows)).len() == rows.len(),
        forall|i: int|
            0 <= i < rows.len() ==> {
                &&& (#[trigger] row_views(rows)[i]) == (rows[i].0@, rows[i].1)
                &&& row_paths(row_views(rows))[i] == rows[i].0@
                &&& row_numbers(row_views(rows))[i] == rows[i].1
                &&& named_paths(row_views(rows))[i] == Some(rows[i].0@)
            },
{
}

/// The mathematical value of a batch is made column by column and value by value.
pub proof fn lemma_batch_view(batch: RowBatch)
    ensures
        batch@.rows == batch.num_rows,
        batch@.columns.len() == batch.columns.len(),
        batch@.names.len() == batch.fields.len(),
        batch@.field_ids.len() == batch.fields.len(),
        batch@.nullable.len() == batch.fields.len(),
        forall|c: int|
            0 <= c < batch.fields.len() ==> {
                &&& (#[trigger] batch@.names[c]) == batch.fields[c].name@
                &&& batch@.nullable[c] == batch.fields[c].nullable
                &&& batch@.field_ids[c] is None <==> batch.fields[c].field_id is None
                &&& batch.fields[c].field_id matches Some(id) ==> batch@.field_ids[c] == Some(id@)
            },
        forall|c: int|
            0 <= c < batch.columns.len() ==> match batch.columns[c] {
                Column::Utf8(texts) => {
                    &&& (#[trigger] batch@.columns[c]) matches ColumnModel::Utf8(model)
                    &&& model.len() == texts.len()
                    &&& forall|i: int|
                        0 <= i < texts.len() ==> match texts[i] {
                            Some(text) => (#[trigger] model[i]) == Some(text@),
                            None => model[i] is None,
                        }
                },
                Column::Int64(numbers) => batch@.columns[c] == ColumnModel::Int64(numbers@),
                Column::Other => batch@.columns[c] is Other,
            },
{
}

/// The mathematical value of optional texts is made text by text.
pub proof fn lemma_optional_texts(texts: Seq<Option<String>>)
    ensures
        optional_texts(texts).len() == texts.len(),
        forall|i: int|
            0 <= i < texts.len() ==> match texts[i] {
                Some(text) => (#[trigger] optional_texts(texts)[i]) == Some(text@),
                None => optional_texts(texts)[i] is None,
            },
{
}

/// A batch is valid just where each of its columns has a name, an id and a nullability, and each
/// column of texts or numbers holds one value per row.
pub proof fn lemma_valid_batches(batch: BatchModel)
    ensures
        batch.valid() <==> {
            &&& batch.names.len() == batch.columns.len()
            &&& batch.field_ids.len() == batch.columns.len()
            &&& batch.nullable.len() == batch.columns.len()
            &&& forall|c: int|
                0 <= c < batch.columns.len() ==> match #[trigger] batch.columns[c] {
                    ColumnModel::Utf8(texts) => texts.len() == batch.rows,
                    ColumnModel::Int64(numbers) => numbers.len() == batch.rows,
                    ColumnModel::Other => true,
                }
        },
{
    if batch.valid() {
        assert forall|c: int| 0 <= c < batch.columns.len() implies match #[trigger] batch.columns[c] {
            ColumnModel::Utf8(texts) => texts.len() == batch.rows,
            ColumnModel::Int64(numbers) => numbers.len() == batch.rows,
            ColumnModel::Other => true,
        } by {
            assert(batch.columns[c].has_rows(batch.rows));
        }
    }
}

proof fn lemma_column_rows(batch: BatchModel, c: int)
    requires
        batch.valid(),
        0 <= c < batch.columns.len(),
    ensures
        batch.columns[c].has_rows(batch.rows),
{
}

proof fn lemma_leading_rows(paths: Seq<Option<Seq<char>>>, positions: Seq<Option<i64>>, i: int)
    requires
        0 <= i <= paths.len(),
        paths.len() == positions.len(),
    ensures
        ({
            let rows = leading_rows(paths, positions, i);
            &&& i + rows.len() <= paths.len()
            &&& forall|k: int|
                0 <= k < rows.len() ==> {
                    &&& paths[i + k] == Some((#[trigger] rows[k]).0)
                    &&& positions[i + k] == Some(rows[k].1)
                }
            &&& i + rows.len() < paths.len() ==> paths[(i + rows.len()) as int] is None
                || positions[(i + rows.len()) as int] is None
        }),
    decreases paths.len() - i,
{
    if i < paths.len() && paths[i] is Some && positions[i] is Some {
        lemma_leading_rows(paths, positions, i + 1);
        let rows = leading_rows(paths, positions, i);
        let rest = leading_rows(paths, positions, i + 1);
        assert(rows.len() == rest.len() + 1);
        assert forall|k: int| 0 <= k < rows.len() implies {
            &&& paths[i + k] == Some((#[trigger] rows[k]).0)
            &&& positions[i + k] == Some(rows[k].1)
        } by {
            if k > 0 {
                assert(rows[k] == rest[k - 1]);
                assert(paths[i + 1 + (k - 1)] == Some(rest[k - 1].0));
            }
        }
    }
}

/// Where a batch holds no null, every one of its rows goes to the buffer, in order and as it is.
/// Where it holds a null it is refused, and just the rows before the first null go there.
pub proof fn lemma_every_row_is_buffered(
    batch: BatchModel,
    paths: Seq<Option<Seq<char>>>,
    positions: Seq<Option<i64>>,
)
    requires
        batch.valid(),
        batch.columns.len() >= 2,
        batch.columns[0] == ColumnModel::Utf8(paths),
        batch.columns[1] == ColumnModel::Int64(positions),
    ensures
        refused_batch(batch) is None <==> forall|i: int|
            0 <= i < batch.rows ==> #[trigger] paths[i] is Some && positions[i] is Some,
        refused_batch(batch) is None ==> accepted_rows(batch).len() == batch.rows,
        refused_batch(batch) matches Some(error) ==> {
            &&& error.kind == ErrorKind::DataInvalid
            &&& error.message == "file_path and pos must not be null in position delete rows"@
            &&& accepted_rows(batch).len() < batch.rows
            &&& paths[accepted_rows(batch).len() as int] is None || positions[accepted_rows(
                batch,
            ).len() as int] is None
        },
        forall|i: int|
            0 <= i < accepted_rows(batch).len() ==> {
                &&& paths[i] == Some((#[trigger] accepted_rows(batch)[i]).0)
                &&& positions[i] == Some(accepted_rows(batch)[i].1)
            },
{
    lemma_column_rows(batch, 0);
    lemma_column_rows(batch, 1);
    lemma_leading_rows(paths, positions, 0);
    let rows = accepted_rows(batch);
    assert forall|i: int| 0 <= i < rows.len() implies {
        &&& paths[i] == Some((#[trigger] rows[i]).0)
        &&& positions[i] == Some(rows[i].1)
    } by {
        assert(paths[0 + i] == Some(rows[i].0));
    }
    if refused_batch(batch) is None {
        assert forall|i: int| 0 <= i < batch.rows implies #[trigger] paths[i] is Some
            && positions[i] is Some by {}
        if rows.len() < batch.rows {
            assert(paths[rows.len() as int] is None || positions[rows.len() as int] is None);
        }
    } else {
        if forall|i: int| 0 <= i < batch.rows ==> #[trigger] paths[i] is Some && positions[i] is Some {
            if has_null(positions) {
                let i = choose|i: int| 0 <= i < positions.len() && (#[trigger] positions[i]) is None;
                assert(paths[i] is Some);
            }
        }
        if rows.len() == batch.rows {
            if has_null(paths) {
                let i = choose|i: int| 0 <= i < paths.len() && (#[trigger] paths[i]) is None;
                assert(paths[i] == Some(rows[i].0));
            } else {
                let i = choose|i: int| 0 <= i < positions.len() && (#[trigger] positions[i]) is None;
                assert(paths[i] == Some(rows[i].0));
            }
        }
    }
}

/// A batch whose columns have other types is refused whole. Any batch of two columns or more, and
/// one without texts in its first column, is looked at.
pub proof fn lemma_other_columns_are_refused(batch: BatchModel)
    ensures
        batch.columns.len() >= 2 ==> has_delete_columns(batch),
        batch.columns.len() == 1 && !(batch.columns[0] is Utf8) ==> has_delete_columns(batch),
        batch.columns[0] is Utf8 && !(batch.columns[1] is Int64) ==> {
            &&& accepted_rows(batch).len() == 0
            &&& refused_batch(batch) matches Some(error)
            &&& error.kind == ErrorKind::DataInvalid
            &&& error.message == "Could not downcast pos column to Int64Array"@
            &&& refused_deletes(batch) matches Some(error)
            &&& error.kind == ErrorKind::DataInvalid
            &&& error.message == "Position-delete pos must be an Int64Array."@
        },
        !(batch.columns[0] is Utf8) ==> {
            &&& accepted_rows(batch).len() == 0
            &&& refused_batch(batch) matches Some(error)
            &&& error.kind == ErrorKind::DataInvalid
            &&& error.message == "Could not downcast file_path column to StringArray"@
            &&& refused_deletes(batch) matches Some(error)
            &&& error.kind == ErrorKind::DataInvalid
            &&& error.message == "Position-delete file_path must be a StringArray."@
        },
{
}

/// A batch is gathered just where it holds no null and no negative position, and then it adds just
/// its rows: a row is among them if and only if the batch holds it.
pub proof fn lemma_every_row_is_gathered(
    batch: BatchModel,
    paths: Seq<Option<Seq<char>>>,
    positions: Seq<Option<i64>>,
)
    requires
        batch.valid(),
        batch.columns.len() >= 2,
        batch.columns[0] == ColumnModel::Utf8(paths),
        batch.columns[1] == ColumnModel::Int64(positions),
    ensures
        forall|path: Seq<char>, p: i64| #[trigger]
            batch_rows(batch).contains((path, p)) <==> exists|i: int|
                0 <= i < batch.rows && #[trigger] paths[i] == Some(path) && positions[i] == Some(p),
        refused_deletes(batch) is None <==> forall|i: int|
            0 <= i < batch.rows ==> #[trigger] paths[i] is Some && positions[i] is Some
                && positions[i]->0 >= 0,
        (exists|i: int|
            0 <= i < batch.rows && (#[trigger] paths[i] is None || positions[i] is None)) ==> (
        refused_deletes(batch) matches Some(error) && error.kind == ErrorKind::DataInvalid
            && error.message == "Position-delete file_path and pos values must not be null."@),
        refused_deletes(batch) is Some && (forall|i: int|
            0 <= i < batch.rows ==> #[trigger] paths[i] is Some && positions[i] is Some) ==> (
        refused_deletes(batch)->0.kind == ErrorKind::DataInvalid && refused_deletes(batch)->0.message
            == "Position-delete row positions must be non-negative."@),
{
    lemma_column_rows(batch, 0);
    lemma_column_rows(batch, 1);
    assert forall|path: Seq<char>, p: i64| #[trigger]
        batch_rows(batch).contains((path, p)) <==> exists|i: int|
            0 <= i < batch.rows && #[trigger] paths[i] == Some(path) && positions[i] == Some(p) by {
        if column_rows(paths, positions).contains((path, p)) {
            let i = choose|i: int|
                0 <= i < paths.len() && #[trigger] row_at(paths, positions, i, (path, p));
            assert(paths[i] == Some(path));
        }
        if exists|i: int|
            0 <= i < batch.rows && #[trigger] paths[i] == Some(path) && positions[i] == Some(p) {
            let i = choose|i: int|
                0 <= i < batch.rows && #[trigger] paths[i] == Some(path) && positions[i] == Some(p);
            assert(row_at(paths, positions, i, (path, p)));
        }
    }
    if refused_deletes(batch) is None {
        assert forall|i: int| 0 <= i < batch.rows implies #[trigger] paths[i] is Some
            && positions[i] is Some && positions[i]->0 >= 0 by {
            assert(positions[i] is Some);
        }
    }
    if forall|i: int| 0 <= i < batch.rows ==> #[trigger] paths[i] is Some && positions[i] is Some {
        assert forall|i: int| 0 <= i < positions.len() implies (#[trigger] positions[i]) is Some by {
            assert(paths[i] is Some);
        }
        assert(!has_null(paths) && !has_null(positions));
        if has_negative(positions) {
            let i = choose|i: int|
                0 <= i < positions.len() && (#[trigger] positions[i] matches Some(position)
                    && position < 0);
            assert(paths[i] is Some);
        }
    }
    if exists|i: int| 0 <= i < batch.rows && (#[trigger] paths[i] is None || positions[i] is None) {
        let i = choose|i: int|
            0 <= i < batch.rows && (#[trigger] paths[i] is None || positions[i] is None);
        assert(paths[i] is None || positions[i] is None);
        assert(has_null(paths) || has_null(positions));
    }
}

proof fn lemma_inserted_one_by_one(
    deletes: Set<(Seq<char>, i64)>,
    rows: Seq<(Seq<char>, i64)>,
)
    ensures
        rows.fold_left(
            deletes,
            |gathered: Set<(Seq<char>, i64)>, row: (Seq<char>, i64)| gathered.insert(row),
        ) == deletes.union(rows.to_set()),
    decreases rows.len(),
{
    let f = |gathered: Set<(Seq<char>, i64)>, row: (Seq<char>, i64)| gathered.insert(row);
    if rows.len() == 0 {
        assert(deletes.union(rows.to_set()) == deletes);
    } else {
        let front = rows.drop_last();
        lemma_inserted_one_by_one(deletes, front);
        assert(rows == front.push(rows.last()));
        assert forall|row: (Seq<char>, i64)| rows.contains(row) <==> front.contains(row) || row
            == rows.last() by {
            if front.contains(row) {
                let i = choose|i: int| 0 <= i < front.len() && front[i] == row;
                assert(rows[i] == row);
            }
            if rows.contains(row) {
                let i = choose|i: int| 0 <= i < rows.len() && rows[i] == row;
                if i < front.len() {
                    assert(front[i] == row);
                }
            }
            assert(rows[rows.len() - 1] == rows.last());
        }
        assert(deletes.union(rows.to_set()) == deletes.union(front.to_set()).insert(rows.last()));
    }
}

/// Gathering a batch comes to the same as gathering each of its rows by itself, one after the other.
pub proof fn lemma_a_batch_is_gathered_like_its_rows(
    batch: BatchModel,
    rows: Seq<(Seq<char>, i64)>,
    deletes: Set<(Seq<char>, i64)>,
    paths: Seq<Option<Seq<char>>>,
    positions: Seq<Option<i64>>,
)
    requires
        batch.valid(),
        batch.columns.len() >= 2,
        batch.columns[0] == ColumnModel::Utf8(paths),
        batch.columns[1] == ColumnModel::Int64(positions),
        rows.len() == batch.rows,
        forall|i: int|
            0 <= i < rows.len() ==> paths[i] == Some((#[trigger] rows[i]).0) && positions[i] == Some(
                rows[i].1,
            ),
    ensures
        deletes.union(batch_rows(batch)) == rows.fold_left(
            deletes,
            |gathered: Set<(Seq<char>, i64)>, row: (Seq<char>, i64)| gathered.insert(row),
        ),
{
    lemma_every_row_is_gathered(batch, paths, positions);
    lemma_inserted_one_by_one(deletes, rows);
    assert forall|row: (Seq<char>, i64)|
        batch_rows(batch).contains(row) <==> rows.contains(row) by {
        assert(row == (row.0, row.1));
        assert(batch_rows(batch).contains((row.0, row.1)) <==> exists|i: int|
            0 <= i < batch.rows && #[trigger] paths[i] == Some(row.0) && positions[i] == Some(row.1));
        if batch_rows(batch).contains(row) {
            let i = choose|i: int|
                0 <= i < batch.rows && #[trigger] paths[i] == Some(row.0) && positions[i] == Some(row.1);
            assert(rows[i] == row);
        }
        if rows.contains(row) {
            let i = choose|i: int| 0 <= i < rows.len() && rows[i] == row;
            assert(paths[i] == Some(rows[i].0));
        }
    }
    assert(batch_rows(batch) == rows.to_set());
}

/// The batch that is made of delete rows is gathered and buffered as just those rows.
pub proof fn lemma_delete_batches_read_back(rows: Seq<(Seq<char>, i64)>)
    ensures
        delete_batch(rows).valid(),
        accepted_rows(delete_batch(rows)) == rows,
        refused_batch(delete_batch(rows)) is None,
        batch_rows(delete_batch(rows)) == rows.to_set(),
{
    let batch = delete_batch(rows);
    lemma_delete_batch_holds_every_row(rows);
    let paths = batch.columns[0]->Utf8_0;
    let positions = batch.columns[1]->Int64_0;
    assert forall|c: int| 0 <= c < batch.columns.len() implies (#[trigger] batch.columns[c]).has_rows(
        batch.rows,
    ) by {
        if c == 0 {
            assert(batch.columns[0].has_rows(batch.rows));
        } else {
            assert(batch.columns[1].has_rows(batch.rows));
        }
    }
    lemma_every_row_is_buffered(batch, paths, positions);
    lemma_every_row_is_gathered(batch, paths, positions);
    assert forall|i: int| 0 <= i < batch.rows implies #[trigger] paths[i] is Some
        && positions[i] is Some by {
        assert(positions[i] == Some(rows[i].1));
    }
    let accepted = accepted_rows(batch);
    assert forall|i: int| 0 <= i < rows.len() implies accepted[i] == rows[i] by {
        assert(paths[i] == Some(accepted[i].0));
        assert(positions[i] == Some(rows[i].1));
    }
    assert(accepted == rows);
    assert forall|i: int| 0 <= i < rows.len() implies paths[i] == Some((#[trigger] rows[i]).0)
        && positions[i] == Some(rows[i].1) by {}
    let none = Set::<(Seq<char>, i64)>::empty();
    lemma_a_batch_is_gathered_like_its_rows(batch, rows, none, paths, positions);
    lemma_inserted_one_by_one(none, rows);
    assert(none.union(batch_rows(batch)) == batch_rows(batch));
    assert(none.union(rows.to_set()) == rows.to_set());
}

/// The data file that is named as the only one: some row of the file refers to it, and no row of
/// the file refers to another one. A column that does not hold texts leaves none to be named, and
/// when a file is closed the one that it named is forgotten.
pub proof fn lemma_named_data_file(paths: Seq<Option<Seq<char>>>, path: Seq<char>, known: ReferenceModel)
    ensures
        ReferenceModel::Nothing.with_column(ColumnModel::Utf8(paths)).only() == Some(path) <==> {
            &&& exists|i: int| 0 <= i < paths.len() && #[trigger] paths[i] == Some(path)
            &&& forall|i: int|
                0 <= i < paths.len() ==> #[trigger] paths[i] is None || paths[i] == Some(path)
        },
        ReferenceModel::Nothing.with_column(ColumnModel::Utf8(paths)) is Many <==> exists|
            i: int,
            j: int,
        |
            0 <= i < paths.len() && 0 <= j < paths.len() && #[trigger] paths[i] is Some
                && #[trigger] paths[j] is Some && paths[i] != paths[j],
        forall|column: ColumnModel|
            !(column is Utf8) ==> (#[trigger] known.with_column(column)).only() is None,
        ReferenceModel::Many.only() is None,
        ReferenceModel::Nothing.only() is None,
        known.closed().only() is None,
        known is Many <==> known.closed() is Many,
{
    let model = ReferenceModel::Nothing.with_paths(paths);
    lemma_only_reference(paths);
    if model.only() == Some(path) {
        let i = choose|i: int| 0 <= i < paths.len() && paths[i] == Some(path);
        assert(paths[i] == Some(path));
    }
    if (exists|i: int| 0 <= i < paths.len() && #[trigger] paths[i] == Some(path)) && (forall|i: int|
        0 <= i < paths.len() ==> #[trigger] paths[i] is None || paths[i] == Some(path)) {
        let k = choose|k: int| 0 <= k < paths.len() && #[trigger] paths[k] == Some(path);
        assert(paths[k] is Some);
        if model is Many {
            let (i, j) = choose|i: int, j: int|
                0 <= i < paths.len() && 0 <= j < paths.len() && #[trigger] paths[i] is Some
                    && #[trigger] paths[j] is Some && paths[i] != paths[j];
            assert(paths[i] == Some(path) && paths[j] == Some(path));
        }
        assert(model is One);
        assert(paths[k] == Some(model->One_0));
    }
    if exists|i: int, j: int|
        0 <= i < paths.len() && 0 <= j < paths.len() && #[trigger] paths[i] is Some
            && #[trigger] paths[j] is Some && paths[i] != paths[j] {
        let (i, j) = choose|i: int, j: int|
            0 <= i < paths.len() && 0 <= j < paths.len() && #[trigger] paths[i] is Some
                && #[trigger] paths[j] is Some && paths[i] != paths[j];
        assert(paths[i] is Some && paths[j] is Some);
    }
}

/// Descriptions are refused just where one of them could not be made, and the first of those is the
/// one that is reported.
pub proof fn lemma_refused_builds<F>(written: Seq<Result<F, String>>, i: int)
    requires
        0 <= i <= written.len(),
    ensures
        refused_build(written, i) is None <==> forall|k: int|
            i <= k < written.len() ==> #[trigger] written[k] is Ok,
        forall|k: int|
            i <= k < written.len() && #[trigger] written[k] is Err && (forall|j: int|
                i <= j < k ==> #[trigger] written[j] is Ok) ==> (refused_build(written, i) matches Some(
                error,
            ) && error.kind == ErrorKind::DataInvalid && error.message
                == "Failed to build data file: "@ + written[k]->Err_0@),
    decreases written.len() - i,
{
    if i < written.len() {
        lemma_refused_builds(written, i + 1);
        if written[i] is Ok {
            assert forall|k: int|
                i <= k < written.len() && #[trigger] written[k] is Err && (forall|j: int|
                    i <= j < k ==> #[trigger] written[j] is Ok) implies (refused_build(written, i) matches Some(
                error,
            ) && error.kind == ErrorKind::DataInvalid && error.message
                == "Failed to build data file: "@ + written[k]->Err_0@) by {
                assert(k > i);
                assert(forall|j: int| i + 1 <= j < k ==> #[trigger] written[j] is Ok);
            }
        }
    }
}

/// A position delete file is described by what was written, as position deletes without a sort
/// order, with the partition of its writer and the data file that its rows refer to.
pub proof fn lemma_described_files<F, P: Clone>(
    file: DataFile<F, P>,
    written: Result<F, String>,
    partition_key: Option<PartitionKey<P>>,
    referenced: Option<Seq<char>>,
)
    requires
        position_delete_file(file, written, partition_key, referenced),
    ensures
        written is Ok && written->Ok_0 == file.file,
        file.content == DataContentType::PositionDeletes,
        file.sort_order_id is None,
        file.referenced_data_file is Some <==> referenced is Some,
        referenced matches Some(path) ==> file.referenced_data_file->0@ == path,
        file.partition is Some <==> partition_key is Some,
        file.partition_spec_id is Some <==> partition_key is Some,
        partition_key matches Some(key) ==> file.partition_spec_id->0 == key.spec_id && cloned(
            key.data,
            file.partition->0,
        ),
{
}

/// Runs are taken one for one, and row by row.
pub proof fn lemma_run_views(runs: Seq<Vec<(String, i64)>>)
    ensures
        run_views(runs).len() == runs.len(),
        forall|r: int|
            0 <= r < runs.len() ==> {
                &&& (#[trigger] run_views(runs)[r]).len() == runs[r].len()
                &&& forall|i: int|
                    0 <= i < runs[r].len() ==> #[trigger] run_views(runs)[r][i] == (
                        runs[r]@[i].0@,
                        runs[r]@[i].1,
                    )
            },
{
}

/// The rows stand in order, by data file and then by position.
pub open spec fn in_file_order(rows: Seq<(Seq<char>, i64)>) -> bool {
    forall|i: int, j: int|
        0 <= i < j < rows.len() ==> if (#[trigger] rows[i]).0 == (#[trigger] rows[j]).0 {
            rows[i].1 <= rows[j].1
        } else {
            text_before(rows[i].0, rows[j].0)
        }
}

proof fn lemma_runs_in_order(
    runs: Seq<Seq<(Seq<char>, i64)>>,
    parts: Seq<Seq<(Seq<char>, i64)>>,
    r: int,
)
    requires
        sorted_runs(runs, parts),
        0 <= r < runs.len(),
    ensures
        in_file_order(runs[r]),
        runs[r].to_multiset() == parts[r].to_multiset(),
        runs[r].len() == parts[r].len(),
{
    assert(sorted_run(runs[r], parts[r]));
    lemma_sorted_rows_stand_in_order(runs[r]);
    lemma_sorted_runs_keep_rows(runs, parts);
}

/// What a write hands out and what it keeps: every run holds just `max` rows and stands in order,
/// fewer than `max` rows wait, and together the runs and the waiting rows are all rows. Runs are
/// cut in the order in which the rows came: run `r` holds the rows from `r * max` on.
pub proof fn lemma_runs_of_a_write(
    runs: Seq<Seq<(Seq<char>, i64)>>,
    rows: Seq<(Seq<char>, i64)>,
    max: nat,
)
    requires
        max > 0,
        sorted_runs(runs, due_parts(rows, max)),
    ensures
        forall|r: int|
            0 <= r < runs.len() ==> {
                &&& (#[trigger] runs[r]).len() == max
                &&& in_file_order(runs[r])
                &&& 0 <= r * max <= r * max + max <= rows.len()
                &&& runs[r].to_multiset() == rows.subrange(r * max, r * max + max).to_multiset()
            },
        waiting_rows(rows, max).len() < max,
        runs.len() * max + waiting_rows(rows, max).len() == rows.len(),
        waiting_rows(rows, max) == rows.subrange((runs.len() * max) as int, rows.len() as int),
{
    lemma_due_parts(rows, max);
    lemma_full_parts(rows, max);
    let parts = due_parts(rows, max);
    assert forall|r: int| 0 <= r < parts.len() implies (#[trigger] parts[r]).len() == max by {
        if r < full_parts(rows, max).len() {
            assert(parts[r] == full_parts(rows, max)[r]);
        }
    }
    lemma_cut_in_order(parts, waiting_rows(rows, max), max);
    assert forall|r: int| 0 <= r < runs.len() implies {
        &&& (#[trigger] runs[r]).len() == max
        &&& in_file_order(runs[r])
        &&& 0 <= r * max <= r * max + max <= rows.len()
        &&& runs[r].to_multiset() == rows.subrange(r * max, r * max + max).to_multiset()
    } by {
        lemma_runs_in_order(runs, parts, r);
        assert(cut_from(parts[r], rows, r * max, max));
    }
}

/// What a flush or a close hands out: every run but the last holds just `max` rows, the last one
/// between one and `max`, each stands in order, and run `r` holds the rows from `r * max` on.
pub proof fn lemma_runs_of_a_flush(
    runs: Seq<Seq<(Seq<char>, i64)>>,
    rows: Seq<(Seq<char>, i64)>,
    max: nat,
)
    requires
        max > 0,
        sorted_runs(runs, all_parts(rows, max)),
    ensures
        runs.len() == 0 <==> rows.len() == 0,
        rows.len() > 0 ==> (runs.len() - 1) * max < rows.len() <= runs.len() * max,
        forall|r: int|
            0 <= r < runs.len() ==> {
                &&& in_file_order(#[trigger] runs[r])
                &&& r < runs.len() - 1 ==> {
                    &&& runs[r].len() == max
                    &&& 0 <= r * max <= r * max + max <= rows.len()
                    &&& runs[r].to_multiset() == rows.subrange(r * max, r * max + max).to_multiset()
                }
                &&& r == runs.len() - 1 ==> {
                    &&& 0 <= r * max < rows.len()
                    &&& runs[r].to_multiset() == rows.subrange(r * max, rows.len() as int).to_multiset()
                }
            },
{
    lemma_all_parts(rows, max);
    lemma_full_parts(rows, max);
    let parts = all_parts(rows, max);
    if rows.len() > 0 {
        let full = full_parts(rows, max);
        let last = part_left(rows, max);
        lemma_cut_in_order(full, last, max);
        let n = full.len() as int;
        assert((n + 1) * max == n * max + max) by (nonlinear_arith);
        assert forall|r: int| 0 <= r < runs.len() implies {
            &&& in_file_order(#[trigger] runs[r])
            &&& r < runs.len() - 1 ==> {
                &&& runs[r].len() == max
                &&& 0 <= r * max <= r * max + max <= rows.len()
                &&& runs[r].to_multiset() == rows.subrange(r * max, r * max + max).to_multiset()
            }
            &&& r == runs.len() - 1 ==> {
                &&& 0 <= r * max < rows.len()
                &&& runs[r].to_multiset() == rows.subrange(r * max, rows.len() as int).to_multiset()
            }
        } by {
            lemma_runs_in_order(runs, parts, r);
            if r < runs.len() - 1 {
                assert(cut_from(full[r], rows, r * max, max));
            } else {
                assert(parts[r] == last);
            }
        }
    }
}

/// `part` holds the `max` rows from index `start` on.
spec fn cut_from(
    part: Seq<(Seq<char>, i64)>,
    rows: Seq<(Seq<char>, i64)>,
    start: int,
    max: nat,
) -> bool {
    0 <= start && start + max <= rows.len() && part == rows.subrange(start, start + max)
}

/// Parts of `max` rows each, followed by `left`, are cut at the multiples of `max`.
proof fn lemma_cut_in_order(
    parts: Seq<Seq<(Seq<char>, i64)>>,
    left: Seq<(Seq<char>, i64)>,
    max: nat,
)
    requires
        forall|r: int| 0 <= r < parts.len() ==> (#[trigger] parts[r]).len() == max,
    ensures
        ({
            let rows = parts.flatten() + left;
            &&& parts.len() * max + left.len() == rows.len()
            &&& left == rows.subrange((parts.len() * max) as int, rows.len() as int)
            &&& forall|r: int|
                0 <= r < parts.len() ==> cut_from(#[trigger] parts[r], rows, r * max, max)
        }),
    decreases parts.len(),
{
    let rows = parts.flatten() + left;
    if parts.len() == 0 {
        assert(rows == left);
        assert(parts.len() * max == 0) by (nonlinear_arith)
            requires
                parts.len() == 0,
        ;
        assert(left == rows.subrange(0, rows.len() as int));
    } else {
        let rest = parts.drop_first();
        assert forall|r: int| 0 <= r < rest.len() implies (#[trigger] rest[r]).len() == max by {
            assert(rest[r] == parts[r + 1]);
        }
        lemma_cut_in_order(rest, left, max);
        let tail = rest.flatten() + left;
        assert(parts.flatten() == parts[0] + rest.flatten());
        assert(rows == parts[0] + tail);
        assert(parts.len() * max == rest.len() * max + max) by (nonlinear_arith)
            requires
                parts.len() == rest.len() + 1,
        ;
        assert(left == rows.subrange((parts.len() * max) as int, rows.len() as int));
        assert forall|r: int| 0 <= r < parts.len() implies cut_from(
            #[trigger] parts[r],
            rows,
            r * max,
            max,
        ) by {
            if r == 0 {
                assert(r * max == 0) by (nonlinear_arith)
                    requires
                        r == 0,
                ;
                assert(parts[0] == rows.subrange(0, max as int));
            } else {
                assert(parts[r] == rest[r - 1]);
                assert(r * max == (r - 1) * max + max) by (nonlinear_arith);
                assert(cut_from(rest[r - 1], tail, (r - 1) * max, max));
                assert(rows.subrange(r * max, r * max + max) == tail.subrange(
                    (r - 1) * max,
                    (r - 1) * max + max,
                ));
            }
        }
    }
}

/// What a write keeps before it hands out a part: all full parts leave, and between one and `max`
/// rows stay, unless there is none.
pub proof fn lemma_rows_left(
    runs: Seq<Seq<(Seq<char>, i64)>>,
    rows: Seq<(Seq<char>, i64)>,
    max: nat,
)
    requires
        max > 0,
        sorted_runs(runs, full_parts(rows, max)),
    ensures
        forall|r: int|
            0 <= r < runs.len() ==> {
                &&& (#[trigger] runs[r]).len() == max
                &&& in_file_order(runs[r])
                &&& 0 <= r * max <= r * max + max <= rows.len()
                &&& runs[r].to_multiset() == rows.subrange(r * max, r * max + max).to_multiset()
            },
        rows.len() > 0 ==> 0 < part_left(rows, max).len() <= max,
        part_left(rows, max) == rows.subrange((runs.len() * max) as int, rows.len() as int),
        runs.len() * max + part_left(rows, max).len() == rows.len(),
{
    lemma_full_parts(rows, max);
    let parts = full_parts(rows, max);
    lemma_cut_in_order(parts, part_left(rows, max), max);
    assert forall|r: int| 0 <= r < runs.len() implies {
        &&& (#[trigger] runs[r]).len() == max
        &&& in_file_order(runs[r])
        &&& 0 <= r * max <= r * max + max <= rows.len()
        &&& runs[r].to_multiset() == rows.subrange(r * max, r * max + max).to_multiset()
    } by {
        lemma_runs_in_order(runs, parts, r);
        assert(cut_from(parts[r], rows, r * max, max));
    }
}

/// A batch takes as many rows as are left, but no more than `flush_rows`.
pub proof fn lemma_batch_lengths(rows: nat, flush_rows: nat)
    ensures
        next_batch_len(rows, flush_rows) <= rows,
        next_batch_len(rows, flush_rows) <= flush_rows,
        next_batch_len(rows, flush_rows) == rows || next_batch_len(rows, flush_rows) == flush_rows,
{
}

/// What a writer is set up with: where it says that the setup is the same, the builder, the
/// partition and the size of a file are.
pub proof fn lemma_same_setup<R, P, F>(
    a: SortedPositionDeleteWriter<R, P, F>,
    b: SortedPositionDeleteWriter<R, P, F>,
)
    requires
        a.same_setup(&b),
    ensures
        a.spec_inner() == b.spec_inner(),
        a.spec_partition_key() == b.spec_partition_key(),
        a.max_records_per_file() == b.max_records_per_file(),
{
}

/// Each writer says for itself that it was closed, and each refusal of a single row or of a setting
/// says what was wrong.
pub proof fn lemma_refusals(position: i64)
    ensures
        inner_closed() == (ErrorModel {
            kind: ErrorKind::Unexpected,
            message: "Position delete inner writer has been closed."@,
        }),
        sorted_writer_closed() == (ErrorModel {
            kind: ErrorKind::Unexpected,
            message: "Sorted position delete writer has been closed."@,
        }),
        sorting_writer_closed() == (ErrorModel {
            kind: ErrorKind::Unexpected,
            message: "Sorting position-only delete writer is already closed."@,
        }),
        negative_row(position) == (ErrorModel {
            kind: ErrorKind::DataInvalid,
            message: "Position delete row position must be non-negative, got "@ + decimal(
                position as int,
            ) + "."@,
        }),
        zero_flush_rows() == (ErrorModel {
            kind: ErrorKind::DataInvalid,
            message: "Sorting position-only delete writer flush_rows must be greater than zero."@,
        }),
{
}

} // verus!

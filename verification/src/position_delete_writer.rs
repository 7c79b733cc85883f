//! This module provides [`PositionDeleteFileWriter`].
use crate::arrow_batch::{
    contents, row_batch, text_and_number, text_and_number_batch, text_bytes, text_views,
    ArrowBatch,
};
use crate::batch::{optional_text, optional_texts, BatchModel, Column, ColumnModel, RowBatch};
use crate::error::{invalid, unexpected, Error, ErrorKind, ErrorModel};
use crate::metadata::{
    DataContentType, DataFile, NestedField, PartitionKey, PrimitiveType, Schema,
    RESERVED_FIELD_ID_DELETE_FILE_PATH, RESERVED_FIELD_ID_DELETE_FILE_POS,
};
use crate::text::{decimal, same_text, signed_text};
use vstd::prelude::*;
use vstd::string::*;

verus! {

/// Returns the fixed Iceberg schema used by position delete files: `file_path` (required string,
/// field id [`RESERVED_FIELD_ID_DELETE_FILE_PATH`]) followed by `pos` (required long, field id
/// [`RESERVED_FIELD_ID_DELETE_FILE_POS`]).
///
/// Column order matters: readers assume `file_path` is column 0 and `pos` is column 1.
pub fn position_delete_schema() -> (schema: Schema)
    ensures
        schema.fields.len() == 2,
        schema.fields[0].id == RESERVED_FIELD_ID_DELETE_FILE_PATH,
        schema.fields[0].name@ == "file_path"@,
        schema.fields[0].required,
        schema.fields[0].field_type == PrimitiveType::String,
        schema.fields[1].id == RESERVED_FIELD_ID_DELETE_FILE_POS,
        schema.fields[1].name@ == "pos"@,
        schema.fields[1].required,
        schema.fields[1].field_type == PrimitiveType::Long,
{
    let mut fields: Vec<NestedField> = Vec::new();
    fields.push(
        NestedField {
            id: RESERVED_FIELD_ID_DELETE_FILE_PATH,
            name: "file_path".to_owned(),
            required: true,
            field_type: PrimitiveType::String,
        },
    );
    fields.push(
        NestedField {
            id: RESERVED_FIELD_ID_DELETE_FILE_POS,
            name: "pos".to_owned(),
            required: true,
            field_type: PrimitiveType::Long,
        },
    );
    Schema { fields }
}

/// The mathematical value of a delete row: the data file and the position in it.
pub open spec fn row_view(row: (String, i64)) -> (Seq<char>, i64) {
    (row.0@, row.1)
}

/// The mathematical value of a sequence of delete rows.
pub open spec fn row_views(rows: Seq<(String, i64)>) -> Seq<(Seq<char>, i64)> {
    rows.map_values(|row: (String, i64)| row_view(row))
}

/// The data files of delete rows, in order.
pub open spec fn row_paths(rows: Seq<(Seq<char>, i64)>) -> Seq<Seq<char>> {
    rows.map_values(|row: (Seq<char>, i64)| row.0)
}

/// The positions of delete rows, in order.
pub open spec fn row_numbers(rows: Seq<(Seq<char>, i64)>) -> Seq<i64> {
    rows.map_values(|row: (Seq<char>, i64)| row.1)
}

/// The batch that holds just the given delete rows, in the schema of position delete files: neither
/// column may hold nulls.
pub open spec fn delete_batch(rows: Seq<(Seq<char>, i64)>) -> BatchModel {
    text_and_number(
        ("file_path"@, "pos"@),
        (
            decimal(RESERVED_FIELD_ID_DELETE_FILE_PATH as int),
            decimal(RESERVED_FIELD_ID_DELETE_FILE_POS as int),
        ),
        (false, false),
        row_paths(rows),
        row_numbers(rows),
    )
}

/// The data files of delete rows as a column holds them.
pub open spec fn named_paths(rows: Seq<(Seq<char>, i64)>) -> Seq<Option<Seq<char>>> {
    row_paths(rows).map_values(|path: Seq<char>| Some(path))
}

/// The bytes of a part of the texts are no more than those of all.
proof fn lemma_text_bytes_grow(texts: Seq<Seq<char>>, k: int)
    requires
        0 <= k <= texts.len(),
    ensures
        text_bytes(texts.take(k)) <= text_bytes(texts),
    decreases texts.len() - k,
{
    if k < texts.len() {
        lemma_text_bytes_grow(texts, k + 1);
        assert(texts.take(k + 1).drop_last() == texts.take(k));
    } else {
        assert(texts.take(k) == texts);
    }
}

/// Tells whether the paths of delete rows fit in one record batch.
pub fn rows_fit_batch(rows: &Vec<(String, i64)>) -> (fit: bool)
    ensures
        fit == (text_bytes(row_paths(row_views(rows@))) <= i32::MAX),
{
    let ghost paths = row_paths(row_views(rows@));
    let mut bytes: usize = 0;
    let mut i: usize = 0;
    while i < rows.len()
        invariant
            i <= rows.len(),
            paths == row_paths(row_views(rows@)),
            bytes == text_bytes(paths.take(i as int)),
            bytes <= i32::MAX,
        decreases rows.len() - i,
    {
        let length = rows[i].0.as_str().as_bytes().len();
        proof {
            assert(paths.take(i + 1).drop_last() == paths.take(i as int));
            assert(paths[i as int] == rows@[i as int].0@);
            lemma_text_bytes_grow(paths, i + 1);
        }
        if length > i32::MAX as usize - bytes {
            return false;
        }
        bytes += length;
        i += 1;
    }
    assert(paths.take(i as int) == paths);
    true
}

/// Builds the record batch that holds the given delete rows.
pub fn position_delete_batch(rows: &Vec<(String, i64)>) -> (result: Result<ArrowBatch, Error>)
    requires
        text_bytes(row_paths(row_views(rows@))) <= i32::MAX,
    ensures
        result matches Ok(batch) && contents(batch) == delete_batch(row_views(rows@)),
{
    let ghost model = row_views(rows@);
    let mut paths: Vec<String> = Vec::new();
    let mut positions: Vec<i64> = Vec::new();
    let mut i: usize = 0;
    while i < rows.len()
        invariant
            i <= rows.len(),
            model == row_views(rows@),
            text_views(paths@) == row_paths(model).take(i as int),
            positions@ == row_numbers(model).take(i as int),
        decreases rows.len() - i,
    {
        assert(row_paths(model).take(i + 1) == row_paths(model).take(i as int).push(rows@[i as int].0@));
        let ghost before = paths@;
        paths.push(rows[i].0.clone());
        assert(text_views(paths@) == text_views(before).push(rows@[i as int].0@));
        positions.push(rows[i].1);
        i += 1;
    }
    assert(text_views(paths@) == row_paths(model));
    assert(positions@ == row_numbers(model));
    let schema = position_delete_schema();
    let path = &schema.fields[0];
    let position = &schema.fields[1];
    let path_id = signed_text(path.id as i64);
    let position_id = signed_text(position.id as i64);
    match text_and_number_batch(
        (path.name.as_str(), position.name.as_str()),
        (path_id.as_str(), position_id.as_str()),
        (!path.required, !position.required),
        paths,
        positions,
    ) {
        Ok(batch) => Ok(batch),
        Err(message) => Err(
            Error::new(
                ErrorKind::DataInvalid,
                "Failed to build position delete batch: ".to_owned().concat(message.as_str()),
            ),
        ),
    }
}

/// Builder for [`PositionDeleteFileWriter`].
#[derive(Debug)]
pub struct PositionDeleteFileWriterBuilder<R> {
    inner: R,
}

impl<R> PositionDeleteFileWriterBuilder<R> {
    /// The builder of the rolling file writer.
    pub closed spec fn spec_inner(&self) -> R {
        self.inner
    }

    /// Creates a new `PositionDeleteFileWriterBuilder` using the builder of a rolling file writer.
    ///
    /// That builder must be constructed with a file writer configured for
    /// [`position_delete_schema`].
    pub fn new(inner: R) -> (builder: Self)
        ensures
            builder.spec_inner() == inner,
    {
        PositionDeleteFileWriterBuilder { inner }
    }

    /// The builder of the rolling file writer.
    pub fn inner(&self) -> (inner: &R)
        ensures
            *inner == self.spec_inner(),
    {
        &self.inner
    }

    /// Builds a writer for the given partition. `writer` is a rolling file writer that
    /// [`inner`][Self::inner] built.
    pub fn build<W, P>(&self, writer: W, partition_key: Option<PartitionKey<P>>) -> (result:
        PositionDeleteFileWriter<W, P>)
        ensures
            result.spec_inner() == Some(writer),
            result.spec_partition_key() == partition_key,
            result.reference() is Nothing,
    {
        PositionDeleteFileWriter { inner: Some(writer), partition_key, reference: FileReference::Nothing }
    }
}

/// The data files that delete rows refer to.
#[derive(Debug)]
pub enum FileReference {
    /// None so far.
    Nothing,
    /// One, and no other.
    One(String),
    /// More than one, or some that could not be read.
    Many,
}

/// The mathematical value of a [`FileReference`].
pub enum ReferenceModel {
    /// None so far.
    Nothing,
    /// One, and no other.
    One(Seq<char>),
    /// More than one, or some that could not be read.
    Many,
}

impl View for FileReference {
    type V = ReferenceModel;

    open spec fn view(&self) -> ReferenceModel {
        match self {
            FileReference::Nothing => ReferenceModel::Nothing,
            FileReference::One(path) => ReferenceModel::One(path@),
            FileReference::Many => ReferenceModel::Many,
        }
    }
}

impl ReferenceModel {
    /// The references after one more row, which refers to `path`.
    pub open spec fn with_path(self, path: Seq<char>) -> ReferenceModel {
        match self {
            ReferenceModel::Nothing => ReferenceModel::One(path),
            ReferenceModel::One(known) => if known == path {
                self
            } else {
                ReferenceModel::Many
            },
            ReferenceModel::Many => self,
        }
    }

    /// The references after more rows. A row without a path changes nothing.
    pub open spec fn with_paths(self, paths: Seq<Option<Seq<char>>>) -> ReferenceModel
        decreases paths.len(),
    {
        if paths.len() == 0 {
            self
        } else {
            match paths.last() {
                Some(path) => self.with_paths(paths.drop_last()).with_path(path),
                None => self.with_paths(paths.drop_last()),
            }
        }
    }

    /// The references after more rows, whose paths are the values of `column`.
    pub open spec fn with_column(self, column: ColumnModel) -> ReferenceModel {
        match column {
            ColumnModel::Utf8(paths) => self.with_paths(paths),
            _ => ReferenceModel::Many,
        }
    }

    /// The references that are left when a file is closed.
    pub open spec fn closed(self) -> ReferenceModel {
        match self {
            ReferenceModel::One(_) => ReferenceModel::Nothing,
            _ => self,
        }
    }

    /// The only data file referred to, where there is just one.
    pub open spec fn only(self) -> Option<Seq<char>> {
        match self {
            ReferenceModel::One(path) => Some(path),
            _ => None,
        }
    }
}

/// Batches add up: the references after two runs of rows are those after both in one.
pub proof fn lemma_references_add_up(
    start: ReferenceModel,
    first: Seq<Option<Seq<char>>>,
    second: Seq<Option<Seq<char>>>,
)
    ensures
        start.with_paths(first + second) == start.with_paths(first).with_paths(second),
    decreases second.len(),
{
    if second.len() == 0 {
        assert(first + second == first);
    } else {
        assert((first + second).drop_last() == first + second.drop_last());
        lemma_references_add_up(start, first, second.drop_last());
    }
}

/// Once rows refer to different data files, more rows change nothing.
proof fn lemma_many_stays(paths: Seq<Option<Seq<char>>>)
    ensures
        ReferenceModel::Many.with_paths(paths) is Many,
    decreases paths.len(),
{
    if paths.len() > 0 {
        lemma_many_stays(paths.drop_last());
    }
}

/// A data file is named as the only one just where some row refers to it and every row that has a
/// path refers to it; where two rows refer to different files, none is named.
pub proof fn lemma_only_reference(paths: Seq<Option<Seq<char>>>)
    ensures
        match ReferenceModel::Nothing.with_paths(paths) {
            ReferenceModel::Nothing => forall|i: int| 0 <= i < paths.len() ==> (#[trigger] paths[i]) is None,
            ReferenceModel::One(path) => {
                &&& paths.contains(Some(path))
                &&& forall|i: int|
                    0 <= i < paths.len() ==> ((#[trigger] paths[i]) is None || paths[i] == Some(path))
            },
            ReferenceModel::Many => exists|i: int, j: int|
                0 <= i < paths.len() && 0 <= j < paths.len() && (#[trigger] paths[i]) is Some && (
                #[trigger] paths[j]) is Some && paths[i] != paths[j],
        },
    decreases paths.len(),
{
    if paths.len() > 0 {
        let rest = paths.drop_last();
        let last = paths.len() - 1;
        lemma_only_reference(rest);
        assert(forall|i: int| 0 <= i < rest.len() ==> rest[i] == #[trigger] paths[i]);
        match ReferenceModel::Nothing.with_paths(rest) {
            ReferenceModel::Nothing => {},
            ReferenceModel::One(path) => {
                let i = choose|i: int| 0 <= i < rest.len() && rest[i] == Some(path);
                assert(paths[i] == Some(path));
                if paths[last] is Some && paths[last] != Some(path) {
                    assert(paths[i] is Some && paths[last] is Some && paths[i] != paths[last]);
                }
            },
            ReferenceModel::Many => {
                let (i, j) = choose|i: int, j: int|
                    0 <= i < rest.len() && 0 <= j < rest.len() && (#[trigger] rest[i]) is Some && (
                    #[trigger] rest[j]) is Some && rest[i] != rest[j];
                assert(paths[i] is Some && paths[j] is Some && paths[i] != paths[j]);
            },
        }
        if paths[last] is Some {
            assert(paths.contains(paths[last]));
        }
    }
}

/// A rolling file writer that is to be closed, and the only data file that its rows refer to.
#[derive(Debug)]
pub struct ClosingWriter<W> {
    /// The writer to close.
    pub writer: W,
    /// The only data file that the rows refer to, where there is just one.
    pub referenced_data_file: Option<String>,
}

/// Writer used to write position delete files.
///
/// Rows must be projected to the fixed [`position_delete_schema`] (`file_path`, `pos`) before
/// being passed to [`write`][Self::write]. Iceberg requires position delete files to be sorted by
/// `(file_path, pos)` within each file; this writer does not sort, it writes rows in the order
/// given.
#[derive(Debug)]
pub struct PositionDeleteFileWriter<W, P> {
    inner: Option<W>,
    partition_key: Option<PartitionKey<P>>,
    reference: FileReference,
}

/// The error for a writer that was closed before.
pub open spec fn inner_closed() -> ErrorModel {
    unexpected("Position delete inner writer has been closed."@)
}

/// The first file from `i` on that could not be described, and the error that reports it.
pub open spec fn refused_build<F>(written: Seq<Result<F, String>>, i: int) -> Option<ErrorModel>
    decreases written.len() - i,
{
    if i >= written.len() {
        None
    } else {
        match written[i] {
            Err(message) => Some(invalid("Failed to build data file: "@ + message@)),
            Ok(_) => refused_build(written, i + 1),
        }
    }
}

/// `file` is the position delete file `written`, in the given partition and with the given
/// reference.
pub open spec fn position_delete_file<F, P: Clone>(
    file: DataFile<F, P>,
    written: Result<F, String>,
    partition_key: Option<PartitionKey<P>>,
    referenced: Option<Seq<char>>,
) -> bool {
    &&& written == Ok::<F, String>(file.file)
    &&& file.content == DataContentType::PositionDeletes
    &&& file.sort_order_id is None
    &&& optional_text(file.referenced_data_file) == referenced
    &&& match partition_key {
        Some(key) => {
            &&& file.partition matches Some(partition) && cloned(key.data, partition)
            &&& file.partition_spec_id == Some(key.spec_id)
        },
        None => file.partition is None && file.partition_spec_id is None,
    }
}

impl<W, P> PositionDeleteFileWriter<W, P> {
    /// The rolling file writer, while this writer is open.
    pub closed spec fn spec_inner(&self) -> Option<W> {
        self.inner
    }

    /// The partition that is written to.
    pub closed spec fn spec_partition_key(&self) -> Option<PartitionKey<P>> {
        self.partition_key
    }

    /// The data files that the rows written so far refer to.
    pub closed spec fn reference(&self) -> ReferenceModel {
        self.reference@
    }

    /// The partition that is written to.
    pub fn partition_key(&self) -> (partition_key: &Option<PartitionKey<P>>)
        ensures
            *partition_key == self.spec_partition_key(),
    {
        &self.partition_key
    }

    /// The rolling file writer, while this writer is open.
    pub fn inner_mut(&mut self) -> (inner: &mut Option<W>)
        ensures
            *inner == old(self).spec_inner(),
            final(self).spec_inner() == *final(inner),
            final(self).spec_partition_key() == old(self).spec_partition_key(),
            final(self).reference() == old(self).reference(),
    {
        &mut self.inner
    }

    /// Tells whether no single data file can be named any more, because the rows written so far
    /// refer to more than one or could not be read.
    pub fn saw_multiple_referenced_files(&self) -> (multiple: bool)
        ensures
            multiple == (self.reference() is Many),
    {
        matches!(self.reference, FileReference::Many)
    }

    /// Tracks whether every row written so far references the same data file, so that closing can
    /// populate `referenced_data_file` when it is safe to do so.
    ///
    /// This is best-effort: it is purely a read-side optimisation, so a batch whose column 0 does
    /// not hold texts (column order per [`position_delete_schema`]) just disables the optimisation
    /// rather than failing the write.
    pub fn track_referenced_data_file(&mut self, batch: &RowBatch)
        requires
            old(self).reference() is Many || batch@.columns.len() > 0,
        ensures
            final(self).reference() == (if old(self).reference() is Many {
                ReferenceModel::Many
            } else {
                old(self).reference().with_column(batch@.columns[0])
            }),
            final(self).spec_inner() == old(self).spec_inner(),
            final(self).spec_partition_key() == old(self).spec_partition_key(),
    {
        if matches!(self.reference, FileReference::Many) {
            return;
        }
        assert(batch@.columns[0] == batch.columns@[0]@);
        let paths = match &batch.columns[0] {
            Column::Utf8(paths) => paths,
            _ => {
                self.reference = FileReference::Many;
                return;
            },
        };
        let ghost start = self.reference@;
        let ghost model = optional_texts(paths@);
        assert(model.take(0) == Seq::<Option<Seq<char>>>::empty());
        let mut i: usize = 0;
        while i < paths.len()
            invariant
                i <= paths.len(),
                model == optional_texts(paths@),
                self.reference@ == start.with_paths(model.take(i as int)),
                self.inner == old(self).inner,
                self.partition_key == old(self).partition_key,
            decreases paths.len() - i,
        {
            assert(model.take(i + 1).drop_last() == model.take(i as int));
            if let Some(path) = &paths[i] {
                let update = match &self.reference {
                    FileReference::Nothing => Some(FileReference::One(path.clone())),
                    FileReference::One(known) => if same_text(known.as_str(), path.as_str()) {
                        None
                    } else {
                        Some(FileReference::Many)
                    },
                    FileReference::Many => None,
                };
                if let Some(reference) = update {
                    self.reference = reference;
                }
            }
            i += 1;
        }
        assert(model.take(i as int) == model);
    }

    /// Takes note of a batch. Where that succeeds, the batch is to be handed to the rolling file
    /// writer; where the writer was closed before, it is refused.
    pub fn write(&mut self, batch: &RowBatch) -> (result: Result<(), Error>)
        requires
            old(self).reference() is Many || batch@.columns.len() > 0,
        ensures
            match result {
                Ok(()) => old(self).spec_inner() is Some,
                Err(error) => old(self).spec_inner() is None && error@ == inner_closed(),
            },
            final(self).reference() == (if old(self).reference() is Many {
                ReferenceModel::Many
            } else {
                old(self).reference().with_column(batch@.columns[0])
            }),
            final(self).spec_inner() == old(self).spec_inner(),
            final(self).spec_partition_key() == old(self).spec_partition_key(),
    {
        self.track_referenced_data_file(batch);
        if self.inner.is_some() {
            Ok(())
        } else {
            Err(
                Error::new(
                    ErrorKind::Unexpected,
                    "Position delete inner writer has been closed.".to_owned(),
                ),
            )
        }
    }

    /// Takes note of a record batch, as [`write`][Self::write] does.
    pub fn write_record_batch(&mut self, batch: &ArrowBatch) -> (result: Result<(), Error>)
        requires
            old(self).reference() is Many || contents(*batch).columns.len() > 0,
        ensures
            match result {
                Ok(()) => old(self).spec_inner() is Some,
                Err(error) => old(self).spec_inner() is None && error@ == inner_closed(),
            },
            final(self).reference() == (if old(self).reference() is Many {
                ReferenceModel::Many
            } else {
                old(self).reference().with_column(contents(*batch).columns[0])
            }),
            final(self).spec_inner() == old(self).spec_inner(),
            final(self).spec_partition_key() == old(self).spec_partition_key(),
    {
        let rows = row_batch(batch);
        self.write(&rows)
    }

    /// Builds the record batch of delete rows and takes note of it, as [`write`][Self::write] does.
    /// The batch is to be handed to the rolling file writer.
    pub fn write_rows(&mut self, rows: &Vec<(String, i64)>) -> (result: Result<ArrowBatch, Error>)
        requires
            text_bytes(row_paths(row_views(rows@))) <= i32::MAX,
        ensures
            match result {
                Ok(batch) => old(self).spec_inner() is Some && contents(batch) == delete_batch(
                    row_views(rows@),
                ),
                Err(error) => old(self).spec_inner() is None && error@ == inner_closed(),
            },
            final(self).reference() == old(self).reference().with_paths(
                named_paths(row_views(rows@)),
            ),
            final(self).spec_inner() == old(self).spec_inner(),
            final(self).spec_partition_key() == old(self).spec_partition_key(),
    {
        match position_delete_batch(rows) {
            Ok(batch) => {
                proof {
                    lemma_many_stays(named_paths(row_views(rows@)));
                    assert(contents(batch).columns[0] == ColumnModel::Utf8(
                        named_paths(row_views(rows@)),
                    ));
                }
                match self.write_record_batch(&batch) {
                    Ok(()) => Ok(batch),
                    Err(error) => Err(error),
                }
            },
            Err(error) => Err(error),
        }
    }

    /// Closes the writer: hands out the rolling file writer, which is to be closed, and the only
    /// data file that the rows refer to. What closing the rolling file writer gives goes to
    /// [`data_files`][Self::data_files].
    pub fn close(&mut self) -> (result: Result<ClosingWriter<W>, Error>)
        ensures
            match (result, old(self).spec_inner()) {
                (Ok(closing), Some(writer)) => {
                    &&& closing.writer == writer
                    &&& optional_text(closing.referenced_data_file) == old(self).reference().only()
                    &&& final(self).reference() == old(self).reference().closed()
                },
                (Err(error), None) => {
                    &&& error@ == inner_closed()
                    &&& final(self).reference() == old(self).reference()
                },
                _ => false,
            },
            final(self).spec_inner() is None,
            final(self).spec_partition_key() == old(self).spec_partition_key(),
    {
        match self.inner.take() {
            Some(writer) => {
                let only = match &self.reference {
                    FileReference::One(path) => Some(path.clone()),
                    _ => None,
                };
                if only.is_some() {
                    self.reference = FileReference::Nothing;
                }
                Ok(ClosingWriter { writer, referenced_data_file: only })
            },
            None => Err(
                Error::new(
                    ErrorKind::Unexpected,
                    "Position delete inner writer has been closed.".to_owned(),
                ),
            ),
        }
    }

    /// Describes the files that closing the rolling file writer gave. Each item of `written` is a
    /// file, which is passed on as it is, or the message that says why the file cannot be described.
    ///
    /// Position deletes must be sorted by `(file_path, pos)`, not by a table sort order, so the
    /// sort order is left unset.
    pub fn data_files<F>(
        &self,
        referenced_data_file: Option<String>,
        written: Result<Vec<Result<F, String>>, Error>,
    ) -> (result: Result<Vec<DataFile<F, P>>, Error>) where P: Clone
        ensures
            match written {
                Err(error) => result == Err::<Vec<DataFile<F, P>>, Error>(error),
                Ok(written) => match refused_build(written@, 0) {
                    Some(expected) => result matches Err(error) && error@ == expected,
                    None => {
                        &&& result matches Ok(files)
                        &&& files.len() == written.len()
                        &&& forall|i: int|
                            0 <= i < files.len() ==> position_delete_file(
                                #[trigger] files@[i],
                                written@[i],
                                self.spec_partition_key(),
                                optional_text(referenced_data_file),
                            )
                    },
                },
            },
    {
        let items = match written {
            Ok(items) => items,
            Err(error) => {
                return Err(error);
            },
        };
        let ghost all = items@;
        let mut files: Vec<DataFile<F, P>> = Vec::new();
        for item in it: items
            invariant
                written matches Ok(given) && given@ == all,
                it.seq() == all,
                files.len() == it.index(),
                refused_build(all, 0) == refused_build(all, it.index()),
                forall|i: int|
                    0 <= i < files.len() ==> position_delete_file(
                        #[trigger] files@[i],
                        all[i],
                        self.spec_partition_key(),
                        optional_text(referenced_data_file),
                    ),
        {
            match item {
                Err(message) => {
                    return Err(
                        Error::new(
                            ErrorKind::DataInvalid,
                            "Failed to build data file: ".to_owned().concat(message.as_str()),
                        ),
                    );
                },
                Ok(file) => {
                    let referenced = match &referenced_data_file {
                        Some(path) => Some(path.clone()),
                        None => None,
                    };
                    let (partition, partition_spec_id) = match &self.partition_key {
                        Some(key) => (Some(key.data.clone()), Some(key.spec_id)),
                        None => (None, None),
                    };
                    files.push(
                        DataFile {
                            file,
                            content: DataContentType::PositionDeletes,
                            partition,
                            partition_spec_id,
                            referenced_data_file: referenced,
                            sort_order_id: None,
                        },
                    );
                },
            }
        }
        Ok(files)
    }
}

} // verus!

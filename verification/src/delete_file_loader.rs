//! Reading delete files: what to open, and which rows of a file-scoped position-delete file are
//! deleted.
use crate::arrow_batch::{contents, row_batch, ArrowBatch};
use crate::batch::{
    any_number_null, any_text_null, has_null, optional_text, optional_texts, BatchModel, Column,
    ColumnModel, Field, RowBatch,
};
use crate::bitmap::{ascending, bitmap_positions, members};
use crate::error::{invalid, Error, ErrorKind, ErrorModel};
use crate::metadata::{
    DataContentType, DataFileFormat, FileScanTaskDeleteFile, RESERVED_FIELD_ID_DELETE_FILE_PATH,
    RESERVED_FIELD_ID_DELETE_FILE_POS,
};
use crate::text::{decimal, parse_i32, parsed_i32, same_text, signed_text, unsigned_text};
use roaring::RoaringTreemap;
use vstd::pervasive::unreached;
use vstd::prelude::*;
use vstd::string::*;

verus! {

/// Counters of a scan.
#[derive(Debug)]
pub struct ScanMetrics {
    /// The number of bytes read so far.
    pub bytes_read: u64,
}

impl ScanMetrics {
    /// Starts counting.
    pub fn new() -> (metrics: ScanMetrics)
        ensures
            metrics.bytes_read == 0,
    {
        ScanMetrics { bytes_read: 0 }
    }
}

/// How a delete file is to be read: which file to open, and which columns to bring to the
/// table's schema.
#[derive(Debug)]
pub struct DeleteFileRead {
    /// Where the delete file lies.
    pub file_path: String,
    /// The size of the delete file.
    pub file_size_in_bytes: u64,
    /// What is needed to decrypt the file.
    pub key_metadata: Option<Vec<u8>>,
    /// The field ids of the columns to bring to the table's schema.
    pub field_ids: Vec<i32>,
}

/// `read` opens the file of `task` and evolves the equality columns where the task names them,
/// and every column of the schema where it does not.
pub open spec fn reads_delete_file(
    read: DeleteFileRead,
    task: FileScanTaskDeleteFile,
    schema_field_ids: Seq<i32>,
) -> bool {
    &&& read.file_path@ == task.file_path@
    &&& read.file_size_in_bytes == task.file_size_in_bytes
    &&& match (read.key_metadata, task.key_metadata) {
        (Some(key), Some(given)) => key@ == given@,
        (None, None) => true,
        _ => false,
    }
    &&& match task.equality_ids {
        Some(ids) => read.field_ids@ == ids@,
        None => read.field_ids@ == schema_field_ids,
    }
}

/// A way to read delete files.
pub trait DeleteFileLoader {
    /// Plans the reading of the delete file that `task` refers to. `schema_field_ids` are the
    /// field ids of the table's schema.
    fn read_delete_file(
        &self,
        task: &FileScanTaskDeleteFile,
        schema_field_ids: &Vec<i32>,
    ) -> (read: DeleteFileRead)
        ensures
            reads_delete_file(read, *task, schema_field_ids@),
    ;
}

/// A loader of delete files through a file system handle.
#[derive(Debug)]
pub struct BasicDeleteFileLoader<F> {
    file_io: F,
    scan_metrics: ScanMetrics,
}

impl<F> BasicDeleteFileLoader<F> {
    /// The handle that files are opened through.
    pub closed spec fn spec_file_io(&self) -> F {
        self.file_io
    }

    /// The counters of the scan.
    pub closed spec fn spec_scan_metrics(&self) -> ScanMetrics {
        self.scan_metrics
    }

    /// Makes a loader.
    pub fn new(file_io: F, scan_metrics: ScanMetrics) -> (loader: Self)
        ensures
            loader.spec_file_io() == file_io,
            loader.spec_scan_metrics() == scan_metrics,
    {
        BasicDeleteFileLoader { file_io, scan_metrics }
    }

    /// The handle that files are opened through.
    pub fn file_io(&self) -> (file_io: &F)
        ensures
            *file_io == self.spec_file_io(),
    {
        &self.file_io
    }

    /// The counters of the scan.
    pub fn scan_metrics(&self) -> (scan_metrics: &ScanMetrics)
        ensures
            *scan_metrics == self.spec_scan_metrics(),
    {
        &self.scan_metrics
    }
}

impl<F> DeleteFileLoader for BasicDeleteFileLoader<F> {
    fn read_delete_file(
        &self,
        task: &FileScanTaskDeleteFile,
        schema_field_ids: &Vec<i32>,
    ) -> (read: DeleteFileRead) {
        let key_metadata = match &task.key_metadata {
            Some(key) => Some(key.clone()),
            None => None,
        };
        let field_ids = match &task.equality_ids {
            Some(ids) => ids.clone(),
            None => schema_field_ids.clone(),
        };
        DeleteFileRead {
            file_path: task.file_path.clone(),
            file_size_in_bytes: task.file_size_in_bytes,
            key_metadata,
            field_ids,
        }
    }
}

/// An in-memory index of row positions from one file-scoped position-delete file.
#[derive(Debug)]
pub struct PositionDeleteIndex {
    positions: RoaringTreemap,
}

impl View for PositionDeleteIndex {
    type V = Set<u64>;

    closed spec fn view(&self) -> Set<u64> {
        members(self.positions)
    }
}

/// A finite set of row positions, none of them past the largest signed 64-bit number.
pub open spec fn row_positions(s: Set<u64>) -> bool {
    s.finite() && forall|p: u64| #[trigger] s.contains(p) ==> p <= i64::MAX
}

/// A set of numbers below `n` holds at most `n` of them.
proof fn lemma_bounded_set(s: Set<u64>, n: nat)
    requires
        s.finite(),
        forall|p: u64| #[trigger] s.contains(p) ==> p < n,
    ensures
        s.len() <= n,
    decreases n,
{
    if n == 0 {
        assert(s == Set::<u64>::empty());
    } else {
        let top = (n - 1) as u64;
        let rest = s.remove(top);
        assert forall|p: u64| #[trigger] rest.contains(p) implies p < n - 1 by {
            assert(s.contains(p));
        }
        lemma_bounded_set(rest, (n - 1) as nat);
    }
}

impl PositionDeleteIndex {
    #[verifier::type_invariant]
    spec fn bounded(self) -> bool {
        row_positions(members(self.positions))
    }

    /// Returns the number of unique deleted row positions.
    pub fn len(&self) -> (count: u64)
        ensures
            count == self@.len(),
    {
        proof {
            use_type_invariant(self);
            lemma_bounded_set(self@, (i64::MAX + 1) as nat);
        }
        self.positions.len()
    }

    /// Returns whether the index contains no deleted row positions.
    pub fn is_empty(&self) -> (empty: bool)
        ensures
            empty == (self@ == Set::<u64>::empty()),
    {
        self.positions.is_empty()
    }

    /// Returns whether `position` is present in the index.
    pub fn contains(&self, position: u64) -> (found: bool)
        ensures
            found == self@.contains(position),
    {
        self.positions.contains(position)
    }

    /// Lists the deleted row positions in ascending order.
    pub fn iter(&self) -> (positions: Vec<u64>)
        ensures
            ascending(positions@),
            positions@.to_set() == self@,
    {
        bitmap_positions(&self.positions)
    }
}

/// The error for a file that is not a Parquet position-delete file.
pub open spec fn unsupported_file(task: FileScanTaskDeleteFile) -> ErrorModel {
    ErrorModel {
        kind: ErrorKind::FeatureUnsupported,
        message: "Expected a V2 Parquet position-delete file, got "@ + task.file_type.name_spec() + "/"@
            + task.file_format.name_spec() + " at "@ + task.file_path@,
    }
}

/// The error for a position-delete file with the coordinates of a deletion vector.
pub open spec fn unexpected_coordinates(file: Seq<char>) -> ErrorModel {
    invalid(
        "V2 Parquet position-delete file "@ + file
            + " must not carry deletion-vector content coordinates"@,
    )
}

/// The error for a file whose manifest entry names another data file.
pub open spec fn wrong_reference(file: Seq<char>, referenced: Seq<char>, expected: Seq<char>) -> ErrorModel {
    invalid("Position-delete file "@ + file + " references "@ + referenced + ", expected "@ + expected)
}

/// The error for a file without a column of the given field id.
pub open spec fn missing_column(file: Seq<char>, name: Seq<char>, field_id: i32) -> ErrorModel {
    invalid(
        "Position-delete file "@ + file + " has no `"@ + name + "` column with reserved field id "@ + decimal(
            field_id as int,
        ),
    )
}

/// The error for a file with more than one column of the given field id.
pub open spec fn repeated_column(file: Seq<char>, field_id: i32) -> ErrorModel {
    invalid(
        "Position-delete file "@ + file + " has multiple columns with reserved field id "@ + decimal(
            field_id as int,
        ),
    )
}

/// The error for a `file_path` column that does not hold texts.
pub open spec fn path_column_type(file: Seq<char>) -> ErrorModel {
    invalid("Position-delete file "@ + file + " has a non-Utf8 file_path column"@)
}

/// The error for a `pos` column that does not hold 64-bit numbers.
pub open spec fn position_column_type(file: Seq<char>) -> ErrorModel {
    invalid("Position-delete file "@ + file + " has a non-Int64 pos column"@)
}

/// The error for a null in one of the two columns.
pub open spec fn null_value(file: Seq<char>) -> ErrorModel {
    invalid("Position-delete file "@ + file + " contains nulls"@)
}

/// The error for a row that deletes from another data file.
pub open spec fn wrong_target(file: Seq<char>, target: Seq<char>, expected: Seq<char>) -> ErrorModel {
    invalid(
        "File-scoped position-delete file "@ + file + " contains target "@ + target + ", expected "@
            + expected,
    )
}

/// The error for a row with a negative position.
pub open spec fn negative_position(file: Seq<char>, position: i64) -> ErrorModel {
    invalid(
        "Position-delete file "@ + file + " contains a negative row position "@ + decimal(
            position as int,
        ),
    )
}

/// The error for a file whose number of rows is not the promised one.
pub open spec fn wrong_count(file: Seq<char>, rows: nat, expected: u64) -> ErrorModel {
    invalid(
        "Position-delete file "@ + file + " contains "@ + decimal(rows as int) + " rows, expected "@
            + decimal(expected as int) + " from record_count"@,
    )
}

/// The column carries the given field id.
pub open spec fn carries_id(field_ids: Seq<Option<Seq<char>>>, i: int, field_id: i32) -> bool {
    field_ids[i] is Some && parsed_i32(field_ids[i]->0) == Some(field_id)
}

/// The only column that carries `field_id`, or the error that says why there is none.
pub open spec fn reserved_field(
    field_ids: Seq<Option<Seq<char>>>,
    field_id: i32,
    name: Seq<char>,
    file: Seq<char>,
) -> Result<int, ErrorModel> {
    if forall|i: int| 0 <= i < field_ids.len() ==> !#[trigger] carries_id(field_ids, i, field_id) {
        Err(missing_column(file, name, field_id))
    } else if exists|i: int, j: int|
        0 <= i < j < field_ids.len() && #[trigger] carries_id(field_ids, i, field_id)
            && #[trigger] carries_id(field_ids, j, field_id) {
        Err(repeated_column(file, field_id))
    } else {
        Ok(choose|i: int| 0 <= i < field_ids.len() && #[trigger] carries_id(field_ids, i, field_id))
    }
}

/// The `file_path` and the `pos` column, or the error that says why one is missing.
pub open spec fn delete_columns(field_ids: Seq<Option<Seq<char>>>, file: Seq<char>) -> Result<
    (int, int),
    ErrorModel,
> {
    match reserved_field(field_ids, RESERVED_FIELD_ID_DELETE_FILE_PATH, "file_path"@, file) {
        Err(error) => Err(error),
        Ok(path) => match reserved_field(field_ids, RESERVED_FIELD_ID_DELETE_FILE_POS, "pos"@, file) {
            Err(error) => Err(error),
            Ok(position) => Ok((path, position)),
        },
    }
}

/// The first row from `i` on that is refused, and why; `None` where every row is in order.
pub open spec fn refused_row(
    paths: Seq<Option<Seq<char>>>,
    positions: Seq<Option<i64>>,
    file: Seq<char>,
    expected: Seq<char>,
    i: int,
) -> Option<ErrorModel>
    decreases paths.len() - i,
{
    if i >= paths.len() {
        None
    } else if paths[i]->0 != expected {
        Some(wrong_target(file, paths[i]->0, expected))
    } else if positions[i]->0 < 0 {
        Some(negative_position(file, positions[i]->0))
    } else {
        refused_row(paths, positions, file, expected, i + 1)
    }
}

/// The positions that a column holds.
pub open spec fn positions_of(positions: Seq<Option<i64>>) -> Set<u64> {
    positions.map_values(|p: Option<i64>| p->0 as u64).to_set()
}

/// The state of a load: the file's columns once they are known, the rows read so far, and the
/// positions among them.
#[verifier::ext_equal]
pub struct LoadModel {
    /// Where the delete file lies.
    pub file: Seq<char>,
    /// The data file that every row must refer to.
    pub expected: Seq<char>,
    /// The number of rows that the manifest promises.
    pub record_count: Option<u64>,
    /// The `file_path` and the `pos` column, once a batch was seen.
    pub columns: Option<(int, int)>,
    /// The number of rows read.
    pub rows: nat,
    /// The deleted positions.
    pub positions: Set<u64>,
}

/// Why `task` cannot be loaded for `expected`, before anything is read.
pub open spec fn refused_task(task: FileScanTaskDeleteFile, expected: Seq<char>) -> Option<ErrorModel> {
    if task.file_type != DataContentType::PositionDeletes || task.file_format != DataFileFormat::Parquet
        || task.equality_ids is Some {
        Some(unsupported_file(task))
    } else if task.content_offset is Some || task.content_size_in_bytes is Some {
        Some(unexpected_coordinates(task.file_path@))
    } else if task.referenced_data_file is Some && task.referenced_data_file->0@ != expected {
        Some(wrong_reference(task.file_path@, task.referenced_data_file->0@, expected))
    } else {
        None
    }
}

/// The state in which a load begins.
pub open spec fn load_start(task: FileScanTaskDeleteFile, expected: Seq<char>) -> LoadModel {
    LoadModel {
        file: task.file_path@,
        expected,
        record_count: task.record_count,
        columns: None,
        rows: 0,
        positions: Set::empty(),
    }
}

/// The state after one more batch, or why the batch is refused.
pub open spec fn load_step(state: LoadModel, batch: BatchModel) -> Result<LoadModel, ErrorModel> {
    let found = match state.columns {
        Some(columns) => Ok(columns),
        None => delete_columns(batch.field_ids, state.file),
    };
    match found {
        Err(error) => Err(error),
        Ok((path, position)) => match (batch.columns[path], batch.columns[position]) {
            (ColumnModel::Utf8(paths), ColumnModel::Int64(positions)) => if has_null(paths)
                || has_null(positions) {
                Err(null_value(state.file))
            } else {
                match refused_row(paths, positions, state.file, state.expected, 0) {
                    Some(error) => Err(error),
                    None => Ok(
                        LoadModel {
                            columns: Some((path, position)),
                            rows: state.rows + batch.rows,
                            positions: state.positions.union(positions_of(positions)),
                            ..state
                        },
                    ),
                }
            },
            (ColumnModel::Utf8(_), _) => Err(position_column_type(state.file)),
            _ => Err(path_column_type(state.file)),
        },
    }
}

/// The state after every item of a stream, or the first error: a batch that is refused or an item
/// that is an error itself.
pub open spec fn load_steps(state: LoadModel, stream: Seq<Result<BatchModel, ErrorModel>>) -> Result<
    LoadModel,
    ErrorModel,
>
    decreases stream.len(),
{
    if stream.len() == 0 {
        Ok(state)
    } else {
        match stream[0] {
            Err(error) => Err(error),
            Ok(batch) => match load_step(state, batch) {
                Err(error) => Err(error),
                Ok(next) => load_steps(next, stream.drop_first()),
            },
        }
    }
}

/// The positions of a finished load, or the error where the rows are not as many as promised.
pub open spec fn load_end(state: LoadModel) -> Result<Set<u64>, ErrorModel> {
    if state.record_count is Some && state.rows != state.record_count->0 {
        Err(wrong_count(state.file, state.rows, state.record_count->0))
    } else {
        Ok(state.positions)
    }
}

/// The deleted positions of `expected` that the delete file of `task` holds, given what reading
/// the file yields.
pub open spec fn loaded_positions(
    task: FileScanTaskDeleteFile,
    expected: Seq<char>,
    stream: Seq<Result<BatchModel, ErrorModel>>,
) -> Result<Set<u64>, ErrorModel> {
    match refused_task(task, expected) {
        Some(error) => Err(error),
        None => match load_steps(load_start(task, expected), stream) {
            Err(error) => Err(error),
            Ok(state) => load_end(state),
        },
    }
}

/// The mathematical value of an item of a stream of record batches.
pub open spec fn item_model(item: Result<ArrowBatch, Error>) -> Result<BatchModel, ErrorModel> {
    match item {
        Ok(batch) => Ok(contents(batch)),
        Err(error) => Err(error@),
    }
}

/// The mathematical value of a stream of record batches.
pub open spec fn stream_model(stream: Seq<Result<ArrowBatch, Error>>) -> Seq<
    Result<BatchModel, ErrorModel>,
> {
    stream.map_values(|item: Result<ArrowBatch, Error>| item_model(item))
}

/// Each batch of the stream that a load in `state` comes to has the columns that were found in the
/// first one, and leaves the number of rows within 64 bits.
pub open spec fn readable(state: LoadModel, stream: Seq<Result<BatchModel, ErrorModel>>) -> bool
    decreases stream.len(),
{
    stream.len() > 0 ==> (stream[0] matches Ok(batch) ==> {
        &&& state.columns matches Some(columns) ==> columns.0 < batch.columns.len() && columns.1
            < batch.columns.len()
        &&& state.rows + batch.rows <= u64::MAX
        &&& load_step(state, batch) matches Ok(next) ==> readable(next, stream.drop_first())
    })
}

/// The number of rows in a stream.
pub open spec fn stream_rows(stream: Seq<Result<BatchModel, ErrorModel>>) -> nat
    decreases stream.len(),
{
    if stream.len() == 0 {
        0
    } else {
        (match stream[0] {
            Ok(batch) => batch.rows,
            Err(_) => 0,
        }) + stream_rows(stream.drop_first())
    }
}

/// The batches of one file, which all have the same columns, can be loaded.
pub proof fn lemma_uniform_stream_is_readable(
    state: LoadModel,
    stream: Seq<Result<BatchModel, ErrorModel>>,
    width: nat,
)
    requires
        forall|i: int|
            0 <= i < stream.len() ==> (#[trigger] stream[i] matches Ok(batch) ==> batch.valid()
                && batch.columns.len() == width),
        state.columns matches Some(columns) ==> columns.0 < width && columns.1 < width,
        state.rows + stream_rows(stream) <= u64::MAX,
    ensures
        readable(state, stream),
    decreases stream.len(),
{
    if stream.len() > 0 {
        if let Ok(batch) = stream[0] {
            if let Ok(next) = load_step(state, batch) {
                let rest = stream.drop_first();
                assert forall|i: int| 0 <= i < rest.len() implies (#[trigger] rest[i] matches Ok(
                    batch,
                ) ==> batch.valid() && batch.columns.len() == width) by {
                    assert(rest[i] == stream[i + 1]);
                }
                lemma_uniform_stream_is_readable(next, rest, width);
            }
        }
    }
}

/// Loads an index from a single file-scoped Parquet position-delete file.
///
/// The caller supplies the target data file. If the manifest entry carries
/// `referenced_data_file`, it must match the caller-provided path; the physical rows are also
/// validated so metadata/content disagreement is reported as corrupt input.
#[derive(Debug)]
pub struct PositionDeleteIndexLoader<F> {
    basic_loader: BasicDeleteFileLoader<F>,
}

impl<F> PositionDeleteIndexLoader<F> {
    /// The loader that opens the files.
    pub closed spec fn spec_basic_loader(&self) -> BasicDeleteFileLoader<F> {
        self.basic_loader
    }

    /// Creates a loader for the given file system handle, with counters that start anew.
    pub fn new(file_io: F) -> (loader: Self)
        ensures
            loader.spec_basic_loader().spec_file_io() == file_io,
            loader.spec_basic_loader().spec_scan_metrics().bytes_read == 0,
    {
        PositionDeleteIndexLoader { basic_loader: BasicDeleteFileLoader::new(file_io, ScanMetrics::new()) }
    }

    /// The loader that opens the files.
    pub fn basic_loader(&self) -> (loader: &BasicDeleteFileLoader<F>)
        ensures
            *loader == self.spec_basic_loader(),
    {
        &self.basic_loader
    }

    /// Finds the only column that carries a reserved field id.
    pub fn reserved_field_index(
        fields: &Vec<Field>,
        field_id: i32,
        logical_name: &str,
        delete_file_path: &str,
    ) -> (result: Result<usize, Error>)
        ensures
            match (
                result,
                reserved_field(
                    fields@.map_values(|f: Field| optional_text(f.field_id)),
                    field_id,
                    logical_name@,
                    delete_file_path@,
                ),
            ) {
                (Ok(index), Ok(expected)) => index == expected && index < fields.len(),
                (Err(error), Err(expected)) => error@ == expected,
                _ => false,
            },
    {
        let ghost ids = fields@.map_values(|f: Field| optional_text(f.field_id));
        let mut found: Option<usize> = None;
        let mut i: usize = 0;
        while i < fields.len()
            invariant
                i <= fields.len(),
                ids == fields@.map_values(|f: Field| optional_text(f.field_id)),
                match found {
                    None => forall|j: int| 0 <= j < i ==> !#[trigger] carries_id(ids, j, field_id),
                    Some(k) => k < i && carries_id(ids, k as int, field_id) && forall|j: int|
                        0 <= j < i && j != k ==> !#[trigger] carries_id(ids, j, field_id),
                },
            decreases fields.len() - i,
        {
            let matching = match &fields[i].field_id {
                Some(text) => match parse_i32(text.as_str()) {
                    Some(id) => id == field_id,
                    None => false,
                },
                None => false,
            };
            assert(ids[i as int] == optional_text(fields@[i as int].field_id));
            assert(matching == carries_id(ids, i as int, field_id));
            if matching {
                match found {
                    Some(k) => {
                        assert(carries_id(ids, k as int, field_id) && carries_id(ids, i as int, field_id));
                        return Err(
                            Error::new(
                                ErrorKind::DataInvalid,
                                "Position-delete file ".to_owned().concat(delete_file_path).concat(
                                    " has multiple columns with reserved field id ",
                                ).concat(signed_text(field_id as i64).as_str()),
                            ),
                        );
                    },
                    None => {
                        found = Some(i);
                    },
                }
            }
            i += 1;
        }
        match found {
            Some(k) => Ok(k),
            None => Err(
                Error::new(
                    ErrorKind::DataInvalid,
                    "Position-delete file ".to_owned().concat(delete_file_path).concat(
                        " has no `",
                    ).concat(logical_name).concat("` column with reserved field id ").concat(
                        signed_text(field_id as i64).as_str(),
                    ),
                ),
            ),
        }
    }

    /// Finds the `file_path` and the `pos` column.
    pub fn position_delete_columns(fields: &Vec<Field>, delete_file_path: &str) -> (result: Result<
        (usize, usize),
        Error,
    >)
        ensures
            match (
                result,
                delete_columns(
                    fields@.map_values(|f: Field| optional_text(f.field_id)),
                    delete_file_path@,
                ),
            ) {
                (Ok((path, position)), Ok(expected)) => {
                    &&& path == expected.0
                    &&& position == expected.1
                    &&& path < fields.len()
                    &&& position < fields.len()
                },
                (Err(error), Err(expected)) => error@ == expected,
                _ => false,
            },
    {
        let path = match Self::reserved_field_index(
            fields,
            RESERVED_FIELD_ID_DELETE_FILE_PATH,
            "file_path",
            delete_file_path,
        ) {
            Ok(index) => index,
            Err(error) => {
                return Err(error);
            },
        };
        match Self::reserved_field_index(
            fields,
            RESERVED_FIELD_ID_DELETE_FILE_POS,
            "pos",
            delete_file_path,
        ) {
            Ok(position) => Ok((path, position)),
            Err(error) => Err(error),
        }
    }

    /// Reads and validates all positions in `delete_file` for exactly `expected_data_file`.
    ///
    /// `stream` is what reading the delete file yields; where the file cannot be opened, its first
    /// item is the error. Duplicate physical rows collapse to one position in the returned index.
    /// The manifest `record_count`, when present, is validated against physical rows before
    /// de-duplication.
    pub fn load_file_scoped_positions(
        &self,
        delete_file: &FileScanTaskDeleteFile,
        expected_data_file: &str,
        stream: Vec<Result<ArrowBatch, Error>>,
    ) -> (result: Result<PositionDeleteIndex, Error>)
        requires
            refused_task(*delete_file, expected_data_file@) is None ==> readable(
                load_start(*delete_file, expected_data_file@),
                stream_model(stream@),
            ),
        ensures
            match (
                result,
                loaded_positions(*delete_file, expected_data_file@, stream_model(stream@)),
            ) {
                (Ok(index), Ok(positions)) => index@ == positions,
                (Err(error), Err(expected)) => error@ == expected,
                _ => false,
            },
    {
        match self.try_load_file_scoped_positions(delete_file, expected_data_file, stream) {
            Some(result) => result,
            None => unreached(),
        }
    }

    /// Does what [`load_file_scoped_positions`][Self::load_file_scoped_positions] does, or tells by
    /// `None` that a later batch lacks a column of the first one or that the rows are too many to be
    /// counted.
    pub fn try_load_file_scoped_positions(
        &self,
        delete_file: &FileScanTaskDeleteFile,
        expected_data_file: &str,
        stream: Vec<Result<ArrowBatch, Error>>,
    ) -> (result: Option<Result<PositionDeleteIndex, Error>>)
        ensures
            result is None <==> refused_task(*delete_file, expected_data_file@) is None && !readable(
                load_start(*delete_file, expected_data_file@),
                stream_model(stream@),
            ),
            result matches Some(result) ==> match (
                result,
                loaded_positions(*delete_file, expected_data_file@, stream_model(stream@)),
            ) {
                (Ok(index), Ok(positions)) => index@ == positions,
                (Err(error), Err(expected)) => error@ == expected,
                _ => false,
            },
    {
        let mut load = match PositionIndexLoad::begin(delete_file, expected_data_file) {
            Ok(load) => load,
            Err(error) => {
                return Some(Err(error));
            },
        };
        let ghost model = stream_model(stream@);
        let ghost start = load@;
        assert(model.skip(0) == model);
        for item in it: stream
            invariant
                it.seq().len() == model.len(),
                forall|i: int| 0 <= i < model.len() ==> #[trigger] model[i] == item_model(it.seq()[i]),
                readable(start, model) == readable(load@, model.skip(it.index())),
                load_steps(start, model) == load_steps(load@, model.skip(it.index())),
                start == load_start(*delete_file, expected_data_file@),
                refused_task(*delete_file, expected_data_file@) is None,
                model == stream_model(stream@),
        {
            let ghost k = it.index();
            assert(model.skip(k)[0] == model[k]);
            assert(model.skip(k).drop_first() == model.skip(k + 1));
            match item {
                Err(error) => {
                    return Some(Err(error));
                },
                Ok(batch) => {
                    let rows = row_batch(&batch);
                    if !load.accepts(&rows) {
                        return None;
                    }
                    match load.add_batch(&rows) {
                        Err(error) => {
                            return Some(Err(error));
                        },
                        Ok(next) => {
                            load = next;
                        },
                    }
                },
            }
        }
        assert(model.skip(model.len() as int) == Seq::<Result<BatchModel, ErrorModel>>::empty());
        Some(load.finish())
    }
}

/// A load of a file-scoped position-delete file under way: it takes the file's batches one by one
/// as they are read.
#[derive(Debug)]
pub struct PositionIndexLoad {
    file_path: String,
    expected_data_file: String,
    record_count: Option<u64>,
    columns: Option<(usize, usize)>,
    rows: u64,
    positions: RoaringTreemap,
}

impl View for PositionIndexLoad {
    type V = LoadModel;

    closed spec fn view(&self) -> LoadModel {
        LoadModel {
            file: self.file_path@,
            expected: self.expected_data_file@,
            record_count: self.record_count,
            columns: match self.columns {
                Some((path, position)) => Some((path as int, position as int)),
                None => None,
            },
            rows: self.rows as nat,
            positions: members(self.positions),
        }
    }
}

impl PositionIndexLoad {
    #[verifier::type_invariant]
    spec fn bounded(self) -> bool {
        row_positions(members(self.positions))
    }

    /// Checks that `delete_file` may be loaded for `expected_data_file` and begins to load it.
    pub fn begin(delete_file: &FileScanTaskDeleteFile, expected_data_file: &str) -> (result: Result<
        PositionIndexLoad,
        Error,
    >)
        ensures
            match (result, refused_task(*delete_file, expected_data_file@)) {
                (Ok(load), None) => load@ == load_start(*delete_file, expected_data_file@),
                (Err(error), Some(expected)) => error@ == expected,
                _ => false,
            },
    {
        let file_path = delete_file.file_path.as_str();
        if delete_file.file_type != DataContentType::PositionDeletes || delete_file.file_format
            != DataFileFormat::Parquet || delete_file.equality_ids.is_some() {
            return Err(
                Error::new(
                    ErrorKind::FeatureUnsupported,
                    "Expected a V2 Parquet position-delete file, got ".to_owned().concat(
                        delete_file.file_type.name(),
                    ).concat("/").concat(delete_file.file_format.name()).concat(" at ").concat(file_path),
                ),
            );
        }
        if delete_file.content_offset.is_some() || delete_file.content_size_in_bytes.is_some() {
            return Err(
                Error::new(
                    ErrorKind::DataInvalid,
                    "V2 Parquet position-delete file ".to_owned().concat(file_path).concat(
                        " must not carry deletion-vector content coordinates",
                    ),
                ),
            );
        }
        if let Some(referenced) = &delete_file.referenced_data_file {
            if !same_text(referenced.as_str(), expected_data_file) {
                return Err(
                    Error::new(
                        ErrorKind::DataInvalid,
                        "Position-delete file ".to_owned().concat(file_path).concat(" references ").concat(
                            referenced.as_str(),
                        ).concat(", expected ").concat(expected_data_file),
                    ),
                );
            }
        }
        Ok(
            PositionIndexLoad {
                file_path: delete_file.file_path.clone(),
                expected_data_file: expected_data_file.to_owned(),
                record_count: delete_file.record_count,
                columns: None,
                rows: 0,
                positions: RoaringTreemap::new(),
            },
        )
    }

    /// Tells whether a batch has the columns that were found in the first one, and leaves the number
    /// of rows within 64 bits.
    pub fn accepts(&self, batch: &RowBatch) -> (accepted: bool)
        ensures
            accepted == {
                &&& self@.columns matches Some(columns) ==> columns.0 < batch@.columns.len()
                    && columns.1 < batch@.columns.len()
                &&& self@.rows + batch@.rows <= u64::MAX
            },
    {
        let wide_enough = match self.columns {
            Some((path, position)) => path < batch.columns.len() && position < batch.columns.len(),
            None => true,
        };
        wide_enough && batch.num_rows as u64 <= u64::MAX - self.rows
    }

    /// Takes the next batch of the file.
    pub fn add_batch(self, batch: &RowBatch) -> (result: Result<PositionIndexLoad, Error>)
        requires
            batch@.valid(),
            self@.columns matches Some(columns) ==> columns.0 < batch@.columns.len() && columns.1
                < batch@.columns.len(),
            self@.rows + batch@.rows <= u64::MAX,
        ensures
            match (result, load_step(self@, batch@)) {
                (Ok(load), Ok(state)) => load@ == state,
                (Err(error), Err(expected)) => error@ == expected,
                _ => false,
            },
    {
        proof {
            use_type_invariant(&self);
        }
        let ghost state = self@;
        let columns = match self.columns {
            Some(columns) => columns,
            None => match PositionDeleteIndexLoader::<()>::position_delete_columns(
                &batch.fields,
                self.file_path.as_str(),
            ) {
                Ok(columns) => columns,
                Err(error) => {
                    return Err(error);
                },
            },
        };
        let file_path = self.file_path.as_str();
        assert(batch@.columns[columns.0 as int] == batch.columns@[columns.0 as int]@);
        assert(batch@.columns[columns.1 as int] == batch.columns@[columns.1 as int]@);
        let paths = match &batch.columns[columns.0] {
            Column::Utf8(paths) => paths,
            _ => {
                return Err(
                    Error::new(
                        ErrorKind::DataInvalid,
                        "Position-delete file ".to_owned().concat(file_path).concat(
                            " has a non-Utf8 file_path column",
                        ),
                    ),
                );
            },
        };
        let row_positions = match &batch.columns[columns.1] {
            Column::Int64(positions) => positions,
            _ => {
                return Err(
                    Error::new(
                        ErrorKind::DataInvalid,
                        "Position-delete file ".to_owned().concat(file_path).concat(
                            " has a non-Int64 pos column",
                        ),
                    ),
                );
            },
        };
        if any_text_null(paths) || any_number_null(row_positions) {
            return Err(
                Error::new(
                    ErrorKind::DataInvalid,
                    "Position-delete file ".to_owned().concat(file_path).concat(" contains nulls"),
                ),
            );
        }
        let ghost path_model = optional_texts(paths@);
        let rows = self.rows + batch.num_rows as u64;
        let mut positions = self.positions;
        let mut row: usize = 0;
        while row < batch.num_rows
            invariant
                row <= batch.num_rows,
                paths.len() == batch.num_rows,
                row_positions.len() == batch.num_rows,
                path_model == optional_texts(paths@),
                !has_null(path_model),
                !has_null(row_positions@),
                file_path@ == self.file_path@,
                state == self@,
                state.file == self.file_path@,
                state.expected == self.expected_data_file@,
                refused_row(path_model, row_positions@, state.file, state.expected, 0) matches Some(
                    error,
                ) ==> load_step(state, batch@) == Err::<LoadModel, ErrorModel>(error),
                self::row_positions(members(positions)),
                members(positions) == state.positions.union(positions_of(row_positions@.take(row as int))),
                refused_row(path_model, row_positions@, state.file, state.expected, 0) == refused_row(
                    path_model,
                    row_positions@,
                    state.file,
                    state.expected,
                    row as int,
                ),
            decreases batch.num_rows - row,
        {
            assert(path_model[row as int] is Some);
            assert(row_positions@[row as int] is Some);
            if let (Some(data_file), Some(position)) = (&paths[row], row_positions[row]) {
                if !same_text(data_file.as_str(), self.expected_data_file.as_str()) {
                    return Err(
                        Error::new(
                            ErrorKind::DataInvalid,
                            "File-scoped position-delete file ".to_owned().concat(file_path).concat(
                                " contains target ",
                            ).concat(data_file.as_str()).concat(", expected ").concat(
                                self.expected_data_file.as_str(),
                            ),
                        ),
                    );
                }
                if position < 0 {
                    return Err(
                        Error::new(
                            ErrorKind::DataInvalid,
                            "Position-delete file ".to_owned().concat(file_path).concat(
                                " contains a negative row position ",
                            ).concat(signed_text(position).as_str()),
                        ),
                    );
                }
                positions.insert(position as u64);
                proof {
                    lemma_positions_of_next(row_positions@, row as int);
                }
            }
            row += 1;
        }
        assert(row_positions@.take(row as int) == row_positions@);
        Ok(
            PositionIndexLoad {
                file_path: self.file_path,
                expected_data_file: self.expected_data_file,
                record_count: self.record_count,
                columns: Some(columns),
                rows,
                positions,
            },
        )
    }

    /// Ends the load after the last batch of the file.
    pub fn finish(self) -> (result: Result<PositionDeleteIndex, Error>)
        ensures
            match (result, load_end(self@)) {
                (Ok(index), Ok(positions)) => index@ == positions,
                (Err(error), Err(expected)) => error@ == expected,
                _ => false,
            },
    {
        proof {
            use_type_invariant(&self);
        }
        if let Some(expected_count) = self.record_count {
            if self.rows != expected_count {
                return Err(
                    Error::new(
                        ErrorKind::DataInvalid,
                        "Position-delete file ".to_owned().concat(self.file_path.as_str()).concat(
                            " contains ",
                        ).concat(unsigned_text(self.rows).as_str()).concat(" rows, expected ").concat(
                            unsigned_text(expected_count).as_str(),
                        ).concat(" from record_count"),
                    ),
                );
            }
        }
        Ok(PositionDeleteIndex { positions: self.positions })
    }
}

/// The positions of one more row.
proof fn lemma_positions_of_next(positions: Seq<Option<i64>>, k: int)
    requires
        0 <= k < positions.len(),
    ensures
        positions_of(positions.take(k + 1)) == positions_of(positions.take(k)).insert(
            positions[k]->0 as u64,
        ),
{
    let f = |p: Option<i64>| p->0 as u64;
    let before = positions.take(k).map_values(f);
    let after = positions.take(k + 1).map_values(f);
    assert(after == before.push(f(positions[k])));
    assert forall|v: u64|
        after.to_set().contains(v) == before.to_set().insert(f(positions[k])).contains(v) by {
        if after.contains(v) {
            let i = choose|i: int| 0 <= i < after.len() && after[i] == v;
            if i < before.len() {
                assert(before[i] == v);
            }
        }
        if before.contains(v) {
            let i = choose|i: int| 0 <= i < before.len() && before[i] == v;
            assert(after[i] == v);
        }
        assert(after[before.len() as int] == f(positions[k]));
    }
    assert(after.to_set() == before.to_set().insert(f(positions[k])));
}

} // verus!

//! The writer of inserts, deletes and updates.
use std::sync::Arc;

use arrow_array::types::Int32Type;
use arrow_array::{
    Array, ArrayRef, DictionaryArray, Int32Array, RecordBatch, StringArray, StructArray,
    TimestampMicrosecondArray, TimestampMillisecondArray, TimestampNanosecondArray,
    TimestampSecondArray,
};
use arrow_cast::display::array_value_to_string;
use arrow_schema::{DataType, Field, Schema};
use iceberg_deletes::arrow_batch::{row_batch, ArrowBatch};
use iceberg_deletes::delete_file_loader::PositionDeleteIndexLoader;
use iceberg_deletes::delta_writer::{
    identifier_key, identifier_values, is_identifiable, next_role, try_identifier_values,
    DeleteAction, DeltaRole, DeltaWriter, DeltaWriterBuilder,
};
use iceberg_deletes::error::{Error, ErrorKind};
use iceberg_deletes::metadata::{DataContentType, DataFile, DataFileFormat, FileScanTaskDeleteFile};

/// A file as the file writers of these tests report it.
#[derive(Debug)]
struct WrittenFile {
    file_path: String,
    file_format: DataFileFormat,
    record_count: u64,
    file_size_in_bytes: u64,
}

/// Takes batches as one file.
struct Recorder {
    path: String,
    content: DataContentType,
    batches: Vec<RecordBatch>,
}

impl Recorder {
    fn new(path: &str, content: DataContentType) -> Self {
        Recorder { path: path.to_string(), content, batches: Vec::new() }
    }

    fn rows(&self) -> usize {
        self.batches.iter().map(|batch| batch.num_rows()).sum()
    }

    fn close(&mut self) -> Vec<DataFile<WrittenFile, String>> {
        if self.rows() == 0 {
            return Vec::new();
        }
        vec![DataFile {
            file: WrittenFile {
                file_path: self.path.clone(),
                file_format: DataFileFormat::Parquet,
                record_count: self.rows() as u64,
                file_size_in_bytes: 1,
            },
            content: self.content,
            partition: None,
            partition_spec_id: None,
            referenced_data_file: None,
            sort_order_id: None,
        }]
    }
}

type Writer = DeltaWriter<Recorder, Recorder, Recorder, Vec<usize>>;

fn build() -> Writer {
    let builder = DeltaWriterBuilder::new("data", "positions", "equality", vec![0]);
    let writer = builder.build(
        Recorder::new(builder.data_writer_builder(), DataContentType::Data),
        Recorder::new(
            builder.position_delete_writer_builder(),
            DataContentType::PositionDeletes,
        ),
        Recorder::new(
            builder.equality_delete_writer_builder(),
            DataContentType::EqualityDeletes,
        ),
    );
    assert_eq!(*writer.equality_config(), vec![0]);
    writer
}

fn rows_batch(ids: Vec<i32>, names: Vec<&str>) -> RecordBatch {
    let schema = Schema::new(vec![
        Field::new("id", DataType::Int32, false),
        Field::new("name", DataType::Utf8, false),
    ]);
    RecordBatch::try_new(
        Arc::new(schema),
        vec![Arc::new(Int32Array::from(ids)), Arc::new(StringArray::from(names))],
    )
    .unwrap()
}

fn row_of(id: i32, name: &str) -> RecordBatch {
    rows_batch(vec![id], vec![name])
}

fn project(writer: &Writer, row: &RecordBatch) -> Result<ArrowBatch, Error> {
    row.project(writer.equality_config())
        .map(ArrowBatch)
        .map_err(|e| Error::new(ErrorKind::DataInvalid, e.to_string()))
}

fn insert(writer: &mut Writer, row: RecordBatch) -> Result<(), Error> {
    let projected = project(writer, &row);
    let pending = writer.insert(&ArrowBatch(row.clone()), projected)?;
    let data = writer.data_writer_mut();
    data.batches.push(row);
    let (count, path) = (data.rows(), data.path.clone());
    writer.record_insert(pending, Ok(()), count, path)
}

fn record_delete(writer: &mut Writer, action: DeleteAction, identifier: RecordBatch) {
    match action {
        DeleteAction::Position { file_path, pos } => {
            let row = Writer::position_delete_row(&file_path, pos).unwrap();
            writer.position_delete_writer_mut().batches.push(row.0);
        }
        DeleteAction::Equality => {
            writer.equality_delete_writer_mut().batches.push(identifier);
        }
    }
}

fn delete(writer: &mut Writer, identifier: RecordBatch) -> Result<(), Error> {
    let projected = project(writer, &identifier);
    let action = writer.delete(&ArrowBatch(identifier.clone()), projected)?;
    record_delete(writer, action, identifier);
    Ok(())
}

fn update(writer: &mut Writer, identifier: RecordBatch, row: RecordBatch) -> Result<(), Error> {
    let projected = project(writer, &identifier);
    let action = writer.update(&ArrowBatch(identifier.clone()), projected)?;
    record_delete(writer, action, identifier);
    let projected = project(writer, &row);
    let pending = writer.update_with(Ok(()), &ArrowBatch(row.clone()), projected)?;
    let data = writer.data_writer_mut();
    data.batches.push(row);
    let (count, path) = (data.rows(), data.path.clone());
    writer.record_insert(pending, Ok(()), count, path)
}

fn close(writer: &mut Writer) -> Result<Vec<DataFile<WrittenFile, String>>, Error> {
    writer.close()?;
    let data = writer.data_writer_mut().close();
    let positions = writer.position_delete_writer_mut().close();
    let equality = writer.equality_delete_writer_mut().close();
    Ok(Writer::collected_files(data, positions, equality))
}

#[test]
fn test_insert_then_delete_same_task_becomes_position_delete() {
    let mut writer = build();
    insert(&mut writer, row_of(1, "a")).unwrap();
    delete(&mut writer, row_of(1, "a")).unwrap();

    let data_files = close(&mut writer).unwrap();
    let contents: Vec<_> = data_files.iter().map(|f| f.content).collect();
    assert_eq!(contents.len(), 2, "{contents:?}");
    assert!(contents.contains(&DataContentType::Data));
    assert!(contents.contains(&DataContentType::PositionDeletes));
    assert!(!contents.contains(&DataContentType::EqualityDeletes));

    let pos_delete_file = data_files
        .iter()
        .find(|f| f.content == DataContentType::PositionDeletes)
        .unwrap();
    assert_eq!(pos_delete_file.file.record_count, 1);
}

#[test]
fn test_delete_without_prior_insert_becomes_equality_delete() {
    let mut writer = build();
    delete(&mut writer, row_of(5, "z")).unwrap();

    let data_files = close(&mut writer).unwrap();
    assert_eq!(data_files.len(), 1);
    assert_eq!(data_files[0].content, DataContentType::EqualityDeletes);
}

#[test]
fn test_update_deletes_old_row_and_inserts_new() {
    let mut writer = build();
    insert(&mut writer, row_of(1, "a")).unwrap();
    update(&mut writer, row_of(1, "a"), row_of(1, "b")).unwrap();

    let data_files = close(&mut writer).unwrap();
    let data_file = data_files.iter().find(|f| f.content == DataContentType::Data).unwrap();
    assert_eq!(data_file.file.record_count, 2);
    let pos_delete_file = data_files
        .iter()
        .find(|f| f.content == DataContentType::PositionDeletes)
        .unwrap();
    assert_eq!(pos_delete_file.file.record_count, 1);
    assert!(!data_files.iter().any(|f| f.content == DataContentType::EqualityDeletes));
}

#[test]
fn test_rejects_multi_row_batch() {
    let mut writer = build();
    let two_rows = rows_batch(vec![1, 2], vec!["a", "b"]);
    let err = insert(&mut writer, two_rows.clone()).unwrap_err();
    assert_eq!(err.kind(), ErrorKind::DataInvalid);
    assert_eq!(
        err.message(),
        "DeltaWriter::insert expects exactly one row per call, got 2"
    );
    let err = update(&mut writer, two_rows, row_of(1, "a")).unwrap_err();
    assert_eq!(
        err.message(),
        "DeltaWriter::delete expects exactly one row per call, got 2"
    );
    let err = delete(&mut writer, rows_batch(vec![], vec![])).unwrap_err();
    assert_eq!(
        err.message(),
        "DeltaWriter::delete expects exactly one row per call, got 0"
    );
}

#[test]
fn test_rejects_reuse_after_close() {
    let mut writer = build();
    insert(&mut writer, row_of(1, "a")).unwrap();
    let _ = close(&mut writer).unwrap();

    for err in [
        insert(&mut writer, row_of(2, "b")).unwrap_err(),
        delete(&mut writer, row_of(1, "a")).unwrap_err(),
        update(&mut writer, row_of(1, "a"), row_of(2, "b")).unwrap_err(),
        close(&mut writer).unwrap_err(),
    ] {
        assert_eq!(err.kind(), ErrorKind::Unexpected);
        assert_eq!(err.message(), "Delta writer has been closed.");
    }
}

#[test]
fn test_delta_writer_position_delete_output_round_trips_through_reader() {
    let mut writer = build();
    insert(&mut writer, row_of(1, "a")).unwrap();
    delete(&mut writer, row_of(1, "a")).unwrap();
    let batches = writer.position_delete_writer_mut().batches.clone();
    let data_files = close(&mut writer).unwrap();

    let data_file = data_files.iter().find(|f| f.content == DataContentType::Data).unwrap();
    let pos_delete_file = data_files
        .iter()
        .find(|f| f.content == DataContentType::PositionDeletes)
        .unwrap();
    let task = FileScanTaskDeleteFile {
        file_path: pos_delete_file.file.file_path.clone(),
        file_size_in_bytes: pos_delete_file.file.file_size_in_bytes,
        file_type: DataContentType::PositionDeletes,
        file_format: pos_delete_file.file.file_format,
        partition_spec_id: 0,
        equality_ids: None,
        referenced_data_file: None,
        content_offset: None,
        content_size_in_bytes: None,
        record_count: Some(pos_delete_file.file.record_count),
        key_metadata: None,
    };
    let stream = batches.into_iter().map(|batch| Ok(ArrowBatch(batch))).collect();
    let index = PositionDeleteIndexLoader::new("fs")
        .load_file_scoped_positions(&task, &data_file.file.file_path, stream)
        .unwrap();
    assert_eq!(index.iter(), vec![0]);
}

#[test]
fn a_row_is_deleted_by_position_once() {
    let mut writer = build();
    insert(&mut writer, row_of(1, "a")).unwrap();
    insert(&mut writer, row_of(2, "b")).unwrap();
    let action = writer.delete_row(1, Ok(vec![Some("2".to_string())])).unwrap();
    assert!(
        matches!(action, DeleteAction::Position { file_path, pos } if file_path == "data" && pos == 1)
    );
    let action = writer.delete_row(1, Ok(vec![Some("2".to_string())])).unwrap();
    assert!(matches!(action, DeleteAction::Equality));
}

#[test]
fn the_last_insert_of_a_row_counts() {
    let mut writer = build();
    for _ in 0..3 {
        insert(&mut writer, row_of(1, "a")).unwrap();
    }
    let action = writer.delete_row(1, Ok(vec![Some("1".to_string())])).unwrap();
    assert!(matches!(action, DeleteAction::Position { pos, .. } if pos == 2));
}

#[test]
fn failures_leave_the_index_alone() {
    let mut writer = build();
    let pending = writer.insert_row(1, Ok(vec![Some("1".to_string())])).unwrap();
    let failed = Err(Error::new(ErrorKind::Unexpected, "disk full".to_string()));
    let err = writer.record_insert(pending, failed, 1, "data".to_string()).unwrap_err();
    assert_eq!(err.message(), "disk full");
    let action = writer.delete_row(1, Ok(vec![Some("1".to_string())])).unwrap();
    assert!(matches!(action, DeleteAction::Equality));

    let failed = Err(Error::new(ErrorKind::DataInvalid, "no such column".to_string()));
    assert_eq!(writer.insert_row(1, failed).unwrap_err().message(), "no such column");
    let failed = Err(Error::new(ErrorKind::Unexpected, "disk full".to_string()));
    let row = row_of(1, "a");
    let projected = project(&writer, &row);
    let err = writer.update_with(failed, &ArrowBatch(row), projected).unwrap_err();
    assert_eq!(err.message(), "disk full");
}

#[test]
fn identifier_keys_tell_values_apart() {
    let some = |text: &str| Some(text.to_string());
    assert_eq!(identifier_key(&vec![]), "");
    assert_eq!(identifier_key(&vec![some("1"), some("a")]), "\u{0}1\u{0}\u{0}a\u{0}");
    let lists = vec![
        vec![],
        vec![None],
        vec![some("")],
        vec![some("N")],
        vec![None, None],
        vec![some(""), None],
        vec![None, some("")],
        vec![some("1"), some("2")],
        vec![some("12"), some("")],
        vec![some("12")],
    ];
    for (i, a) in lists.iter().enumerate() {
        for (j, b) in lists.iter().enumerate() {
            assert_eq!(identifier_key(a) == identifier_key(b), i == j, "{a:?} {b:?}");
        }
    }
}

#[test]
fn identifiers_are_read_as_displayed() {
    let schema = Schema::new(vec![
        Field::new("id", DataType::Int32, true),
        Field::new("name", DataType::Utf8, true),
        Field::new("none", DataType::Utf8, true),
    ]);
    let batch = RecordBatch::try_new(
        Arc::new(schema),
        vec![
            Arc::new(Int32Array::from(vec![-42])),
            Arc::new(StringArray::from(vec!["x y"])),
            Arc::new(StringArray::from(vec![None::<&str>])),
        ],
    )
    .unwrap();
    let values = identifier_values(&ArrowBatch(batch)).unwrap();
    assert_eq!(values, vec![Some("-42".to_string()), Some("x y".to_string()), None]);
}

#[test]
fn columns_that_cannot_be_displayed_are_refused() {
    let array = TimestampSecondArray::from(vec![0]).with_timezone("nowhere");
    let schema = Schema::new(vec![
        Field::new("id", DataType::Int32, false),
        Field::new("at", array.data_type().clone(), false),
    ]);
    let expected = array_value_to_string(&array, 0).unwrap_err();
    let batch = RecordBatch::try_new(
        Arc::new(schema),
        vec![Arc::new(Int32Array::from(vec![1])), Arc::new(array)],
    )
    .unwrap();
    let err = identifier_values(&ArrowBatch(batch)).unwrap_err();
    assert_eq!(err.kind(), ErrorKind::DataInvalid);
    assert_eq!(err.message(), format!("Failed to stringify identifier column: {expected}"));
}

fn zoned(seconds: i64, zone: &str) -> ArrowBatch {
    let array = TimestampSecondArray::from(vec![seconds]).with_timezone(zone);
    let schema = Schema::new(vec![Field::new("at", array.data_type().clone(), false)]);
    ArrowBatch(RecordBatch::try_new(Arc::new(schema), vec![Arc::new(array)]).unwrap())
}

#[test]
fn instants_at_the_ends_of_the_calendar_are_not_displayed() {
    let last = 8_210_266_876_799;
    let first = -8_334_601_228_800;
    for (seconds, zone) in [(last, "+01:00"), (first, "-01:00"), (last - 86_399, "+00:00")] {
        assert!(!is_identifiable(&zoned(seconds, zone)));
        assert!(try_identifier_values(&zoned(seconds, zone)).is_none());
    }
    for (seconds, text) in [
        (0, "1970-01-01T23:59:00+23:59"),
        (last - 86_400, "+262142-12-31T23:58:59+23:59"),
    ] {
        let batch = zoned(seconds, "+23:59");
        assert!(is_identifiable(&batch));
        assert_eq!(identifier_values(&batch).unwrap(), vec![Some(text.to_string())]);
    }
    let values = identifier_values(&zoned(first + 86_400, "-23:59")).unwrap();
    assert_eq!(values, vec![Some("-262143-01-01T00:01:00-23:59".to_string())]);
    // A number past the calendar is no instant, and is displayed as such.
    assert!(is_identifiable(&zoned(i64::MAX, "+01:00")));
}

#[test]
fn instants_are_read_in_every_unit() {
    let schema = |data_type: &DataType| {
        Arc::new(Schema::new(vec![Field::new("at", data_type.clone(), false)]))
    };
    let zone = "+01:00";
    let last = 8_210_266_876_799i64;
    let milli = TimestampMillisecondArray::from(vec![last * 1000]).with_timezone(zone);
    let micro = TimestampMicrosecondArray::from(vec![last * 1_000_000]).with_timezone(zone);
    let nano = TimestampNanosecondArray::from(vec![i64::MAX]).with_timezone(zone);
    let milli = RecordBatch::try_new(schema(milli.data_type()), vec![Arc::new(milli)]).unwrap();
    let micro = RecordBatch::try_new(schema(micro.data_type()), vec![Arc::new(micro)]).unwrap();
    let nano = RecordBatch::try_new(schema(nano.data_type()), vec![Arc::new(nano)]).unwrap();
    assert!(!is_identifiable(&ArrowBatch(milli)));
    assert!(!is_identifiable(&ArrowBatch(micro)));
    assert!(is_identifiable(&ArrowBatch(nano)));
}

#[test]
fn zoned_timestamps_inside_other_columns_are_not_displayed() {
    let array = TimestampSecondArray::from(vec![0]).with_timezone("+01:00");
    let field = Arc::new(Field::new("at", array.data_type().clone(), false));
    let zoned = StructArray::from(vec![(field, Arc::new(array.clone()) as ArrayRef)]);
    let plain = Int32Array::from(vec![7]);
    let field = Arc::new(Field::new("n", DataType::Int32, false));
    let other = StructArray::from(vec![(field, Arc::new(plain) as ArrayRef)]);
    let texts: DictionaryArray<Int32Type> = vec!["x"].into_iter().collect();
    let stamps = DictionaryArray::<Int32Type>::new(Int32Array::from(vec![0]), Arc::new(array));
    let columns: Vec<(ArrayRef, bool)> = vec![
        (Arc::new(zoned), false),
        (Arc::new(other), true),
        (Arc::new(texts), true),
        (Arc::new(stamps), false),
    ];
    for (column, found) in columns {
        let schema = Schema::new(vec![Field::new("c", column.data_type().clone(), false)]);
        let batch = RecordBatch::try_new(Arc::new(schema), vec![column]).unwrap();
        assert_eq!(is_identifiable(&ArrowBatch(batch)), found);
    }
}

#[test]
fn a_batch_without_rows_has_no_identifier() {
    let batch = ArrowBatch(rows_batch(vec![], vec![]));
    assert!(!is_identifiable(&batch));
}

#[test]
fn writers_are_taken_in_order_up_to_the_first_failure() {
    let failed = || Err(Error::new(ErrorKind::Unexpected, "disk full".to_string()));
    let mut roles = Vec::new();
    let mut last = None;
    while let Some(role) = next_role(last, Ok(())).unwrap() {
        roles.push(role);
        last = Some(role);
    }
    assert_eq!(
        roles,
        vec![DeltaRole::Data, DeltaRole::PositionDeletes, DeltaRole::EqualityDeletes]
    );
    for role in roles {
        assert_eq!(next_role(Some(role), failed()).unwrap_err().message(), "disk full");
    }
}

#[test]
fn deletes_follow_the_history_of_a_row() {
    let mut writer = build();
    insert(&mut writer, row_of(1, "a")).unwrap();
    insert(&mut writer, row_of(2, "b")).unwrap();
    delete(&mut writer, row_of(1, "a")).unwrap();
    insert(&mut writer, row_of(1, "c")).unwrap();
    let action = writer.delete_row(1, Ok(vec![Some("1".to_string())])).unwrap();
    assert!(matches!(action, DeleteAction::Position { pos, .. } if pos == 2));
    let action = writer.delete_row(1, Ok(vec![Some("2".to_string())])).unwrap();
    assert!(matches!(action, DeleteAction::Position { pos, .. } if pos == 1));
    let action = writer.delete_row(1, Ok(vec![Some("1".to_string())])).unwrap();
    assert!(matches!(action, DeleteAction::Equality));
}

#[test]
fn a_null_identifier_is_not_the_text_n() {
    let mut writer = build();
    let pending = writer.insert_row(1, Ok(vec![Some("N".to_string())])).unwrap();
    writer.record_insert(pending, Ok(()), 1, "data".to_string()).unwrap();
    let action = writer.delete_row(1, Ok(vec![None])).unwrap();
    assert!(matches!(action, DeleteAction::Equality));
    let action = writer.delete_row(1, Ok(vec![Some("N".to_string())])).unwrap();
    assert!(matches!(action, DeleteAction::Position { pos, .. } if pos == 0));
}

#[test]
fn position_delete_rows_hold_one_row() {
    let row = Writer::position_delete_row("f.parquet", 12).unwrap();
    let read = row_batch(&row);
    assert_eq!(read.num_rows, 1);
    assert_eq!(format!("{:?}", read.columns), "[Utf8([Some(\"f.parquet\")]), Int64([Some(12)])]");
}

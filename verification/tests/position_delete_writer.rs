//! The position delete writer, its schema and its batches.
use std::sync::Arc;

use arrow_array::{Array, Int64Array, RecordBatch, StringArray};
use arrow_schema::{DataType, Field, Schema};
use iceberg_deletes::arrow_batch::{row_batch, ArrowBatch};
use iceberg_deletes::batch::Column;
use iceberg_deletes::error::{Error, ErrorKind};
use iceberg_deletes::metadata::{
    DataContentType, DataFile, DataFileFormat, PartitionKey, PrimitiveType,
    RESERVED_FIELD_ID_DELETE_FILE_PATH, RESERVED_FIELD_ID_DELETE_FILE_POS,
};
use iceberg_deletes::position_delete_writer::{
    position_delete_batch, position_delete_schema, rows_fit_batch, PositionDeleteFileWriter,
    PositionDeleteFileWriterBuilder,
};
use parquet::arrow::PARQUET_FIELD_ID_META_KEY;

/// A file as the file writers of these tests report it.
#[derive(Debug)]
struct WrittenFile {
    file_path: String,
    file_format: DataFileFormat,
    record_count: u64,
    file_size_in_bytes: u64,
}

/// Takes batches, and reports them as one file.
struct Recorder {
    batches: Vec<RecordBatch>,
}

impl Recorder {
    fn close(self) -> Vec<Result<WrittenFile, String>> {
        let rows: usize = self.batches.iter().map(|batch| batch.num_rows()).sum();
        if rows == 0 {
            return Vec::new();
        }
        vec![Ok(WrittenFile {
            file_path: "deletes.parquet".to_string(),
            file_format: DataFileFormat::Parquet,
            record_count: rows as u64,
            file_size_in_bytes: 1,
        })]
    }
}

fn delete_rows(paths: Vec<&str>, positions: Vec<i64>) -> Vec<(String, i64)> {
    paths.into_iter().map(str::to_string).zip(positions).collect()
}

fn batch(paths: Vec<&str>, positions: Vec<i64>) -> RecordBatch {
    position_delete_batch(&delete_rows(paths, positions)).unwrap().0
}

fn build(partition_key: Option<PartitionKey<String>>) -> PositionDeleteFileWriter<Recorder, String> {
    let builder = PositionDeleteFileWriterBuilder::new("rolling");
    assert_eq!(*builder.inner(), "rolling");
    builder.build(Recorder { batches: Vec::new() }, partition_key)
}

fn write(
    writer: &mut PositionDeleteFileWriter<Recorder, String>,
    batch: RecordBatch,
) -> Result<(), Error> {
    writer.write_record_batch(&ArrowBatch(batch.clone()))?;
    if let Some(inner) = writer.inner_mut() {
        inner.batches.push(batch);
    }
    Ok(())
}

fn close(
    writer: &mut PositionDeleteFileWriter<Recorder, String>,
) -> Result<Vec<DataFile<WrittenFile, String>>, Error> {
    let closing = writer.close()?;
    let written = closing.writer.close();
    writer.data_files(closing.referenced_data_file, Ok(written))
}

#[test]
fn test_position_delete_writer() {
    let mut writer = build(None);
    let rows = batch(vec!["data_1.parquet", "data_1.parquet"], vec![1, 3]);
    write(&mut writer, rows.clone()).unwrap();
    let batches = writer.inner_mut().as_ref().unwrap().batches.clone();
    let data_files = close(&mut writer).unwrap();
    assert_eq!(data_files.len(), 1);

    let data_file = &data_files[0];
    assert_eq!(data_file.file.file_format, DataFileFormat::Parquet);
    assert_eq!(data_file.content, DataContentType::PositionDeletes);
    assert_eq!(data_file.partition, None);
    assert_eq!(data_file.sort_order_id, None);
    assert_eq!(data_file.referenced_data_file, Some("data_1.parquet".to_string()));

    let field_ids: Vec<i32> = batches[0]
        .schema()
        .fields()
        .iter()
        .map(|field| field.metadata().get(PARQUET_FIELD_ID_META_KEY).unwrap().parse().unwrap())
        .collect();
    assert_eq!(
        field_ids,
        vec![RESERVED_FIELD_ID_DELETE_FILE_PATH, RESERVED_FIELD_ID_DELETE_FILE_POS]
    );
    assert_eq!(batches.len(), 1);
    assert_eq!(batches[0], rows);
}

#[test]
fn test_position_delete_writer_with_partition() {
    let key = PartitionKey { data: "US".to_string(), spec_id: 4 };
    let mut writer = build(Some(key));
    assert_eq!(writer.partition_key().as_ref().unwrap().spec_id, 4);
    write(&mut writer, batch(vec!["data_1.parquet"], vec![0])).unwrap();
    let data_files = close(&mut writer).unwrap();
    assert_eq!(data_files.len(), 1);
    assert_eq!(data_files[0].partition, Some("US".to_string()));
    assert_eq!(data_files[0].partition_spec_id, Some(4));
}

#[test]
fn test_position_delete_writer_multiple_referenced_files() {
    let mut writer = build(None);
    write(&mut writer, batch(vec!["data_1.parquet", "data_2.parquet"], vec![0, 0])).unwrap();
    let data_files = close(&mut writer).unwrap();
    assert_eq!(data_files.len(), 1);
    assert_eq!(data_files[0].referenced_data_file, None);
}

#[test]
fn test_position_delete_writer_empty_close_error() {
    let mut writer = build(None);
    write(&mut writer, batch(vec!["data_1.parquet"], vec![0])).unwrap();
    let _ = close(&mut writer).unwrap();

    let err = write(&mut writer, batch(vec!["data_1.parquet"], vec![1])).unwrap_err();
    assert_eq!(err.kind(), ErrorKind::Unexpected);
    assert_eq!(err.message(), "Position delete inner writer has been closed.");
    let err = close(&mut writer).unwrap_err();
    assert_eq!(err.kind(), ErrorKind::Unexpected);
    assert_eq!(err.message(), "Position delete inner writer has been closed.");
}

#[test]
fn references_add_up_over_batches() {
    let mut writer = build(None);
    write(&mut writer, batch(vec!["a", "a"], vec![0, 1])).unwrap();
    write(&mut writer, batch(vec!["a"], vec![2])).unwrap();
    let data_files = close(&mut writer).unwrap();
    assert_eq!(data_files[0].referenced_data_file, Some("a".to_string()));
    assert_eq!(data_files[0].file.record_count, 3);

    let mut writer = build(None);
    write(&mut writer, batch(vec!["a"], vec![0])).unwrap();
    write(&mut writer, batch(vec!["b"], vec![0])).unwrap();
    write(&mut writer, batch(vec!["a"], vec![1])).unwrap();
    assert_eq!(close(&mut writer).unwrap()[0].referenced_data_file, None);
}

#[test]
fn paths_that_are_null_are_passed_over() {
    let schema = Arc::new(Schema::new(vec![
        Field::new("file_path", DataType::Utf8, true),
        Field::new("pos", DataType::Int64, false),
    ]));
    let rows = RecordBatch::try_new(
        schema,
        vec![
            Arc::new(StringArray::from(vec![None, Some("a"), None])),
            Arc::new(Int64Array::from(vec![0i64, 1, 2])),
        ],
    )
    .unwrap();
    let mut writer = build(None);
    write(&mut writer, rows).unwrap();
    assert_eq!(close(&mut writer).unwrap()[0].referenced_data_file, Some("a".to_string()));
}

#[test]
fn a_column_that_holds_no_texts_gives_the_reference_up() {
    let schema = Arc::new(Schema::new(vec![Field::new("pos", DataType::Int64, false)]));
    let rows =
        RecordBatch::try_new(schema, vec![Arc::new(Int64Array::from(vec![0i64]))]).unwrap();
    let mut writer = build(None);
    write(&mut writer, batch(vec!["a"], vec![0])).unwrap();
    write(&mut writer, rows).unwrap();
    write(&mut writer, batch(vec!["a"], vec![1])).unwrap();
    assert_eq!(close(&mut writer).unwrap()[0].referenced_data_file, None);
}

#[test]
fn files_that_cannot_be_described_fail_the_close() {
    let mut writer = build(None);
    write(&mut writer, batch(vec!["a"], vec![0])).unwrap();
    let closing = writer.close().unwrap();
    let mut written = closing.writer.close();
    written.push(Err("no path".to_string()));
    written.push(Err("no size".to_string()));
    let err = writer.data_files(closing.referenced_data_file, Ok(written)).unwrap_err();
    assert_eq!(err.kind(), ErrorKind::DataInvalid);
    assert_eq!(err.message(), "Failed to build data file: no path");

    let failed: Result<Vec<Result<WrittenFile, String>>, Error> =
        Err(Error::new(ErrorKind::Unexpected, "disk full".to_string()));
    let err = writer.data_files(None, failed).unwrap_err();
    assert_eq!(err.message(), "disk full");
}

#[test]
fn what_the_file_writer_reports_is_passed_on() {
    let mut writer = build(None);
    write(&mut writer, batch(vec!["a"], vec![0])).unwrap();
    let closing = writer.close().unwrap();
    let report = ("file.parquet", vec![4u64, 8], Some([1u8, 2]));
    let files = writer.data_files(closing.referenced_data_file, Ok(vec![Ok(report.clone())])).unwrap();
    assert_eq!(files[0].file, report);
}

#[test]
fn schema_of_position_deletes() {
    let schema = position_delete_schema();
    assert_eq!(schema.fields.len(), 2);
    assert_eq!(schema.fields[0].id, 2147483546);
    assert_eq!(schema.fields[0].name, "file_path");
    assert_eq!(schema.fields[0].field_type, PrimitiveType::String);
    assert!(schema.fields[0].required);
    assert_eq!(schema.fields[1].id, 2147483545);
    assert_eq!(schema.fields[1].name, "pos");
    assert_eq!(schema.fields[1].field_type, PrimitiveType::Long);
    assert!(schema.fields[1].required);
}

#[test]
fn small_rows_fit_a_batch() {
    assert!(rows_fit_batch(&vec![]));
    assert!(rows_fit_batch(&delete_rows(vec!["a\u{e9}", "b"], vec![1, 2])));
}

#[test]
fn record_batches_hold_the_rows_and_read_back() {
    let rows = delete_rows(vec!["b", "a\u{10000}"], vec![7, -3]);
    let batch = position_delete_batch(&rows).unwrap();
    assert_eq!(batch.0.num_rows(), 2);
    assert_eq!(batch.0.num_columns(), 2);
    let schema = batch.0.schema();
    assert_eq!(schema.field(0).name(), "file_path");
    assert_eq!(schema.field(0).data_type(), &DataType::Utf8);
    assert!(!schema.field(0).is_nullable());
    assert_eq!(schema.field(1).name(), "pos");
    assert_eq!(schema.field(1).data_type(), &DataType::Int64);
    assert!(!schema.field(1).is_nullable());
    let paths = batch.0.column(0).as_any().downcast_ref::<StringArray>().unwrap();
    assert_eq!(paths.value(0), "b");
    assert_eq!(paths.value(1), "a\u{10000}");

    let read = row_batch(&batch);
    assert_eq!(read.num_rows, 2);
    assert_eq!(read.fields[0].name, "file_path");
    assert_eq!(read.fields[0].field_id, Some("2147483546".to_string()));
    assert_eq!(read.fields[1].name, "pos");
    assert_eq!(read.fields[1].field_id, Some("2147483545".to_string()));
    assert!(!read.fields[0].nullable);
    assert!(!read.fields[1].nullable);
    match &read.columns[0] {
        Column::Utf8(texts) => {
            assert_eq!(*texts, vec![Some("b".to_string()), Some("a\u{10000}".to_string())])
        }
        other => panic!("{other:?}"),
    }
    match &read.columns[1] {
        Column::Int64(numbers) => assert_eq!(*numbers, vec![Some(7), Some(-3)]),
        other => panic!("{other:?}"),
    }
}

#[test]
fn reading_a_batch_keeps_nulls_and_passes_other_types_over() {
    let schema = Arc::new(Schema::new(vec![
        Field::new("s", DataType::Utf8, true),
        Field::new("n", DataType::Int64, true),
        Field::new("i", DataType::Int32, true),
    ]));
    let rows = RecordBatch::try_new(
        schema,
        vec![
            Arc::new(StringArray::from(vec![None, Some("x")])),
            Arc::new(Int64Array::from(vec![Some(1i64), None])),
            Arc::new(arrow_array::Int32Array::from(vec![1, 2])),
        ],
    )
    .unwrap();
    let read = row_batch(&ArrowBatch(rows));
    assert_eq!(read.fields[0].field_id, None);
    assert!(read.fields[0].nullable);
    assert!(matches!(&read.columns[0], Column::Utf8(t) if *t == vec![None, Some("x".to_string())]));
    assert!(matches!(&read.columns[1], Column::Int64(n) if *n == vec![Some(1), None]));
    assert!(matches!(&read.columns[2], Column::Other));
}

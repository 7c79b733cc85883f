//! The writer of sorted runs.
use std::sync::Arc;

use arrow_array::{Int64Array, RecordBatch, StringArray};
use arrow_schema::{DataType, Field, Schema};
use iceberg_deletes::arrow_batch::{row_batch, ArrowBatch};
use iceberg_deletes::delete_file_loader::PositionDeleteIndexLoader;
use iceberg_deletes::error::{Error, ErrorKind};
use iceberg_deletes::metadata::{
    DataContentType, DataFile, DataFileFormat, FileScanTaskDeleteFile, PartitionKey,
};
use iceberg_deletes::position_delete_writer::{
    position_delete_batch, PositionDeleteFileWriterBuilder,
};
use iceberg_deletes::row_order::{is_row_before, sort_rows};
use iceberg_deletes::sorted_position_delete_writer::{
    SortedPositionDeleteWriter, SortedPositionDeleteWriterBuilder,
    SortedPositionDeleteWriterConfig,
};

/// A file as the file writers of these tests report it.
#[derive(Debug)]
struct WrittenFile {
    file_path: String,
    file_format: DataFileFormat,
    record_count: u64,
    file_size_in_bytes: u64,
}

type Writer = SortedPositionDeleteWriter<String, String, WrittenFile>;
type Rows = Vec<(String, i64)>;

fn rows(paths: Vec<&str>, positions: Vec<i64>) -> Rows {
    paths.into_iter().map(str::to_string).zip(positions).collect()
}

fn batch(paths: Vec<&str>, positions: Vec<i64>) -> ArrowBatch {
    position_delete_batch(&rows(paths, positions)).unwrap()
}

fn build(max: usize, key: Option<PartitionKey<String>>) -> Writer {
    let config = SortedPositionDeleteWriterConfig::new(max).unwrap();
    SortedPositionDeleteWriterBuilder::new("rolling".to_string(), config).build(key)
}

/// Writes a run out as one file, and keeps the rows by file.
fn spill(writer: &mut Writer, run: Rows, disk: &mut Vec<Rows>) {
    let key = writer.partition_key().as_ref().map(|key| PartitionKey {
        data: key.data.clone(),
        spec_id: key.spec_id,
    });
    let mut file_writer =
        PositionDeleteFileWriterBuilder::new(writer.inner().clone()).build((), key);
    let batch = file_writer.write_rows(&run).unwrap();
    let closing = file_writer.close().unwrap();
    let written = vec![Ok(WrittenFile {
        file_path: format!("{}", disk.len()),
        file_format: DataFileFormat::Parquet,
        record_count: batch.0.num_rows() as u64,
        file_size_in_bytes: 1,
    })];
    let files = file_writer.data_files(closing.referenced_data_file, Ok(written));
    writer.record_files(files).unwrap();
    disk.push(run);
}

fn write(writer: &mut Writer, batch: ArrowBatch, disk: &mut Vec<Rows>) -> Result<(), Error> {
    for run in writer.write_record_batch(&batch)? {
        spill(writer, run, disk);
    }
    Ok(())
}

fn close(
    writer: &mut Writer,
    disk: &mut Vec<Rows>,
) -> Result<Vec<DataFile<WrittenFile, String>>, Error> {
    for run in writer.close()? {
        spill(writer, run, disk);
    }
    Ok(writer.take_files())
}

#[test]
fn test_sorted_position_delete_writer_sorts_within_one_file() {
    let mut disk = Vec::new();
    let mut writer = build(1024, None);
    write(
        &mut writer,
        batch(vec!["b.parquet", "a.parquet", "a.parquet"], vec![5, 10, 1]),
        &mut disk,
    )
    .unwrap();
    let data_files = close(&mut writer, &mut disk).unwrap();
    assert_eq!(data_files.len(), 1);
    assert_eq!(data_files[0].content, DataContentType::PositionDeletes);
    assert_eq!(data_files[0].partition, None);
    assert_eq!(
        disk[0],
        vec![
            ("a.parquet".to_string(), 1),
            ("a.parquet".to_string(), 10),
            ("b.parquet".to_string(), 5),
        ]
    );
}

#[test]
fn test_sorted_position_delete_writer_flushes_on_threshold() {
    let mut disk = Vec::new();
    let mut writer = build(2, None);
    write(&mut writer, batch(vec!["a.parquet", "a.parquet"], vec![2, 1]), &mut disk).unwrap();
    assert_eq!(disk.len(), 1);
    write(&mut writer, batch(vec!["a.parquet"], vec![3]), &mut disk).unwrap();
    assert_eq!(disk.len(), 1);
    let data_files = close(&mut writer, &mut disk).unwrap();
    assert_eq!(data_files.len(), 2);
    assert_eq!(
        disk[0],
        vec![("a.parquet".to_string(), 1), ("a.parquet".to_string(), 2)]
    );
    assert_eq!(disk[1], vec![("a.parquet".to_string(), 3)]);
}

#[test]
fn test_sorted_position_delete_writer_empty_close() {
    let mut disk = Vec::new();
    let mut writer = build(1024, None);
    let data_files = close(&mut writer, &mut disk).unwrap();
    assert!(data_files.is_empty());
}

#[test]
fn test_sorted_position_delete_writer_rejects_reuse_after_close() {
    let mut disk = Vec::new();
    let mut writer = build(1024, None);
    write(&mut writer, batch(vec!["a.parquet"], vec![0]), &mut disk).unwrap();
    let _ = close(&mut writer, &mut disk).unwrap();

    let err = write(&mut writer, batch(vec!["a.parquet"], vec![1]), &mut disk).unwrap_err();
    assert_eq!(err.kind(), ErrorKind::Unexpected);
    assert_eq!(err.message(), "Sorted position delete writer has been closed.");

    let err = close(&mut writer, &mut disk).unwrap_err();
    assert_eq!(err.kind(), ErrorKind::Unexpected);
}

#[test]
fn test_sorted_position_delete_writer_config_rejects_zero() {
    let err = SortedPositionDeleteWriterConfig::new(0).unwrap_err();
    assert_eq!(err.kind(), ErrorKind::DataInvalid);
    assert_eq!(err.message(), "max_records_per_file must be greater than zero.");
}

#[test]
fn test_sorted_position_delete_writer_with_partition() {
    let mut disk = Vec::new();
    let key = PartitionKey { data: "US".to_string(), spec_id: 0 };
    let mut writer = build(1024, Some(key));
    write(&mut writer, batch(vec!["a.parquet"], vec![0]), &mut disk).unwrap();
    let data_files = close(&mut writer, &mut disk).unwrap();
    assert_eq!(data_files.len(), 1);
    assert_eq!(data_files[0].partition, Some("US".to_string()));
}

#[test]
fn test_sorted_position_delete_writer_output_round_trips_through_reader() {
    let mut disk = Vec::new();
    let mut writer = build(2, None);
    let path = "tmp/data-1.parquet";
    write(&mut writer, batch(vec![path, path], vec![5, 2]), &mut disk).unwrap();
    write(&mut writer, batch(vec![path, path], vec![9, 1]), &mut disk).unwrap();
    write(&mut writer, batch(vec![path], vec![7]), &mut disk).unwrap();
    let data_files = close(&mut writer, &mut disk).unwrap();
    assert_eq!(data_files.len(), 3, "expected three separate sorted runs");

    let loader = PositionDeleteIndexLoader::new("fs");
    let mut positions: Vec<u64> = Vec::new();
    for (file, run) in data_files.iter().zip(&disk) {
        let task = FileScanTaskDeleteFile {
            file_path: file.file.file_path.clone(),
            file_size_in_bytes: file.file.file_size_in_bytes,
            file_type: DataContentType::PositionDeletes,
            file_format: file.file.file_format,
            partition_spec_id: 0,
            equality_ids: None,
            referenced_data_file: file.referenced_data_file.clone(),
            content_offset: None,
            content_size_in_bytes: None,
            record_count: Some(file.file.record_count),
            key_metadata: None,
        };
        let stream = vec![position_delete_batch(run)];
        positions.extend(loader.load_file_scoped_positions(&task, path, stream).unwrap().iter());
    }
    positions.sort_unstable();
    assert_eq!(positions, vec![1, 2, 5, 7, 9]);
}

#[test]
fn no_file_holds_more_rows_than_the_bound() {
    let mut disk = Vec::new();
    let mut writer = build(2, None);
    write(&mut writer, batch(vec!["a", "a", "a"], vec![9, 5, 7]), &mut disk).unwrap();
    assert_eq!(disk, vec![rows(vec!["a", "a"], vec![5, 9])]);
    write(&mut writer, batch(vec!["a", "a", "a", "a"], vec![4, 3, 2, 1]), &mut disk).unwrap();
    assert_eq!(disk.len(), 3);
    assert_eq!(disk[1], rows(vec!["a", "a"], vec![4, 7]));
    assert_eq!(disk[2], rows(vec!["a", "a"], vec![2, 3]));
    let data_files = close(&mut writer, &mut disk).unwrap();
    assert_eq!(disk[3], rows(vec!["a"], vec![1]));
    let counts: Vec<u64> = data_files.iter().map(|file| file.file.record_count).collect();
    assert_eq!(counts, vec![2, 2, 2, 1]);
}

#[test]
fn a_buffer_past_the_bound_is_flushed() {
    let mut writer = build(2, None);
    let three = row_batch(&batch(vec!["b", "a", "c"], vec![1, 2, 3]));
    let runs = writer.buffer_batch(&three).unwrap();
    assert_eq!(runs, vec![rows(vec!["a", "b"], vec![2, 1])]);
    let one = row_batch(&batch(vec!["d"], vec![4]));
    assert!(writer.buffer_batch(&one).unwrap().is_empty());
    assert_eq!(writer.flush(), vec![rows(vec!["c", "d"], vec![3, 4])]);
    assert!(writer.flush().is_empty());
}

#[test]
fn rows_kept_from_a_refused_batch_leave_in_bounded_runs() {
    let schema = Arc::new(Schema::new(vec![
        Field::new("file_path", DataType::Utf8, true),
        Field::new("pos", DataType::Int64, true),
    ]));
    let nulls = RecordBatch::try_new(
        schema,
        vec![
            Arc::new(StringArray::from(vec!["c", "b", "a", "z"])),
            Arc::new(Int64Array::from(vec![Some(1i64), Some(2), Some(3), None])),
        ],
    )
    .unwrap();
    let mut disk = Vec::new();
    let mut writer = build(2, None);
    assert!(write(&mut writer, ArrowBatch(nulls), &mut disk).is_err());
    assert!(disk.is_empty());
    close(&mut writer, &mut disk).unwrap();
    assert_eq!(disk, vec![rows(vec!["b", "c"], vec![2, 1]), rows(vec!["a"], vec![3])]);
}

#[test]
fn duplicates_stay_in_a_run() {
    let mut disk = Vec::new();
    let mut writer = build(3, None);
    write(&mut writer, batch(vec!["a", "a", "a"], vec![1, -1, 1]), &mut disk).unwrap();
    assert_eq!(disk[0], rows(vec!["a", "a", "a"], vec![-1, 1, 1]));
}

#[test]
fn rows_before_a_null_stay_buffered() {
    let schema = Arc::new(Schema::new(vec![
        Field::new("file_path", DataType::Utf8, true),
        Field::new("pos", DataType::Int64, true),
    ]));
    let nulls = RecordBatch::try_new(
        schema,
        vec![
            Arc::new(StringArray::from(vec![Some("b"), None, Some("a")])),
            Arc::new(Int64Array::from(vec![Some(1i64), Some(2), Some(3)])),
        ],
    )
    .unwrap();
    let mut disk = Vec::new();
    let mut writer = build(1024, None);
    let err = write(&mut writer, ArrowBatch(nulls), &mut disk).unwrap_err();
    assert_eq!(err.kind(), ErrorKind::DataInvalid);
    assert_eq!(err.message(), "file_path and pos must not be null in position delete rows");
    close(&mut writer, &mut disk).unwrap();
    assert_eq!(disk, vec![rows(vec!["b"], vec![1])]);
}

#[test]
fn columns_of_other_types_are_refused() {
    let mut writer = build(1024, None);
    let numbers = RecordBatch::try_new(
        Arc::new(Schema::new(vec![Field::new("n", DataType::Int64, false)])),
        vec![Arc::new(Int64Array::from(vec![1i64]))],
    )
    .unwrap();
    let err = writer.write_record_batch(&ArrowBatch(numbers)).unwrap_err();
    assert_eq!(err.message(), "Could not downcast file_path column to StringArray");

    let texts = RecordBatch::try_new(
        Arc::new(Schema::new(vec![
            Field::new("s", DataType::Utf8, false),
            Field::new("t", DataType::Utf8, false),
        ])),
        vec![
            Arc::new(StringArray::from(vec!["a"])),
            Arc::new(StringArray::from(vec!["1"])),
        ],
    )
    .unwrap();
    let err = writer.write_record_batch(&ArrowBatch(texts)).unwrap_err();
    assert_eq!(err.kind(), ErrorKind::DataInvalid);
    assert_eq!(err.message(), "Could not downcast pos column to Int64Array");
}

#[test]
fn a_run_that_could_not_be_written_is_reported() {
    let mut writer = build(1, None);
    let runs = writer.write_record_batch(&batch(vec!["a"], vec![1])).unwrap();
    assert_eq!(runs, vec![rows(vec!["a"], vec![1])]);
    let failed = Err(Error::new(ErrorKind::Unexpected, "disk full".to_string()));
    assert_eq!(writer.record_files(failed).unwrap_err().message(), "disk full");
    assert!(writer.close().unwrap().is_empty());
    assert!(writer.take_files().is_empty());
}

#[test]
fn sorting_agrees_with_the_order_of_tuples() {
    let paths = ["b", "", "a", "\u{10000}", "\u{e000}", "ab", "z"];
    let mut unsorted: Rows = Vec::new();
    let mut seed: u64 = 7;
    for _ in 0..500 {
        seed = seed.wrapping_mul(6364136223846793005).wrapping_add(1442695040888963407);
        let path = paths[(seed >> 33) as usize % paths.len()];
        unsorted.push((path.to_string(), (seed >> 40) as i64 % 20 - 5));
    }
    let mut expected = unsorted.clone();
    expected.sort_unstable();
    assert_eq!(sort_rows(unsorted.clone()), expected);
    unsorted.reverse();
    assert_eq!(sort_rows(unsorted), expected);

    let a = ("a".to_string(), 2);
    let b = ("a".to_string(), 10);
    assert!(is_row_before(&a, &b));
    assert!(!is_row_before(&b, &a));
    assert!(!is_row_before(&a, &a));
}

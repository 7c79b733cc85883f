//! The writer that sorts and de-duplicates until it is closed.
use std::sync::Arc;

use arrow_array::{Int64Array, RecordBatch, StringArray};
use arrow_schema::{DataType, Field, Schema};
use iceberg_deletes::arrow_batch::ArrowBatch;
use iceberg_deletes::delete_file_loader::PositionDeleteIndexLoader;
use iceberg_deletes::error::{Error, ErrorKind};
use iceberg_deletes::metadata::{DataContentType, DataFile, DataFileFormat, FileScanTaskDeleteFile};
use iceberg_deletes::position_delete_writer::position_delete_batch;
use iceberg_deletes::position_map::PositionMap;
use iceberg_deletes::sorting_position_only_delete_writer::{
    ClosingStep, SortingPositionOnlyDeleteWriter, SortingPositionOnlyDeleteWriterBuilder,
    DEFAULT_FLUSH_ROWS,
};

/// A file as the file writers of these tests report it.
#[derive(Debug)]
struct WrittenFile {
    file_path: String,
    file_format: DataFileFormat,
    record_count: u64,
    file_size_in_bytes: u64,
}

type Writer = SortingPositionOnlyDeleteWriter<Rolling, String>;

/// Takes batches, and rolls to a new file once the current one holds `target` rows.
#[derive(Debug)]
struct Rolling {
    target: usize,
    files: Vec<Vec<RecordBatch>>,
}

impl Rolling {
    fn write(&mut self, batch: RecordBatch) {
        let full = match self.files.last() {
            Some(file) => rows_in(file) >= self.target,
            None => true,
        };
        if full {
            self.files.push(Vec::new());
        }
        self.files.last_mut().unwrap().push(batch);
    }
}

fn rows_in(file: &[RecordBatch]) -> usize {
    file.iter().map(|batch| batch.num_rows()).sum()
}

fn build(target: usize) -> Writer {
    SortingPositionOnlyDeleteWriterBuilder::new("rolling")
        .build(Rolling { target, files: Vec::new() }, None)
        .unwrap()
}

fn delete_batch(paths: Vec<&str>, positions: Vec<i64>) -> ArrowBatch {
    let rows: Vec<(String, i64)> =
        paths.into_iter().map(str::to_string).zip(positions).collect();
    position_delete_batch(&rows).unwrap()
}

fn write(writer: &mut Writer, batch: ArrowBatch) -> Result<(), Error> {
    writer.write_record_batch(&batch, Ok(()))
}

type Files = Vec<DataFile<WrittenFile, String>>;
type Closed = (Files, Vec<Vec<RecordBatch>>);

fn close(writer: &mut Writer) -> Result<Closed, Error> {
    let mut closing = writer.close()?;
    while let ClosingStep::Write(rows) = closing.next_step(Ok(())) {
        if let Some(batch) = closing.flush_batch(&rows)? {
            closing.writer_mut().inner_mut().as_mut().unwrap().write(batch.0);
        }
    }
    let inner = closing.writer_mut().close()?;
    let disk = inner.writer.files;
    let written = disk
        .iter()
        .enumerate()
        .map(|(number, file)| {
            Ok(WrittenFile {
                file_path: format!("{number}"),
                file_format: DataFileFormat::Parquet,
                record_count: rows_in(file) as u64,
                file_size_in_bytes: 1,
            })
        })
        .collect();
    let files = closing.writer_mut().data_files(inner.referenced_data_file, Ok(written));
    Ok((closing.outcome(files)?, disk))
}

fn read_rows(file: &[RecordBatch]) -> Vec<(String, i64)> {
    let mut rows = Vec::new();
    for batch in file {
        let paths = batch.column(0).as_any().downcast_ref::<StringArray>().unwrap();
        let positions = batch.column(1).as_any().downcast_ref::<Int64Array>().unwrap();
        for (path, position) in paths.iter().zip(positions.iter()) {
            rows.push((path.unwrap().to_owned(), position.unwrap()));
        }
    }
    rows
}

#[test]
fn sorts_and_deduplicates_across_batches() {
    let mut writer = build(usize::MAX);
    write(&mut writer, delete_batch(vec!["b.parquet", "a.parquet"], vec![8, 9])).unwrap();
    write(
        &mut writer,
        delete_batch(vec!["a.parquet", "a.parquet", "b.parquet"], vec![2, 9, 1]),
    )
    .unwrap();

    let (files, disk) = close(&mut writer).unwrap();
    assert_eq!(files.len(), 1);
    assert_eq!(
        read_rows(&disk[0]),
        vec![
            ("a.parquet".to_string(), 2),
            ("a.parquet".to_string(), 9),
            ("b.parquet".to_string(), 1),
            ("b.parquet".to_string(), 8),
        ]
    );
    assert_eq!(files[0].referenced_data_file, None);
}

#[test]
fn writer_output_round_trips_through_file_scoped_loader() {
    let mut writer = build(usize::MAX);
    write(
        &mut writer,
        delete_batch(
            vec!["data.parquet", "data.parquet", "data.parquet"],
            vec![5, 1, 5],
        ),
    )
    .unwrap();

    let (files, disk) = close(&mut writer).unwrap();
    assert_eq!(files.len(), 1);
    let file = &files[0];
    assert_eq!(file.content, DataContentType::PositionDeletes);
    assert_eq!(file.file.file_format, DataFileFormat::Parquet);
    assert_eq!(file.file.record_count, 2);
    assert_eq!(file.referenced_data_file, Some("data.parquet".to_string()));

    let task = FileScanTaskDeleteFile {
        file_path: file.file.file_path.clone(),
        file_size_in_bytes: file.file.file_size_in_bytes,
        file_type: file.content,
        file_format: file.file.file_format,
        partition_spec_id: 0,
        equality_ids: None,
        referenced_data_file: file.referenced_data_file.clone(),
        content_offset: None,
        content_size_in_bytes: None,
        record_count: Some(file.file.record_count),
        key_metadata: None,
    };
    let stream = disk[0]
        .iter()
        .map(|batch| Ok(ArrowBatch(batch.clone())))
        .collect();
    let index = PositionDeleteIndexLoader::new("fs")
        .load_file_scoped_positions(&task, "data.parquet", stream)
        .unwrap();
    assert_eq!(index.iter(), vec![1, 5]);
}

#[test]
fn close_without_rows_returns_no_files() {
    let mut writer = build(usize::MAX);
    assert!(close(&mut writer).unwrap().0.is_empty());
}

#[test]
fn rejects_negative_positions_before_mutating_the_batch() {
    let mut writer = build(usize::MAX);
    let err = write(&mut writer, delete_batch(vec!["a.parquet", "b.parquet"], vec![1, -1]))
        .unwrap_err();
    assert_eq!(err.message(), "Position-delete row positions must be non-negative.");
    assert!(close(&mut writer).unwrap().0.is_empty());
}

#[test]
fn rolling_writer_metadata_is_returned_for_every_sorted_batch() {
    const FLUSH_ROWS: usize = 64;
    let mut writer: Writer = SortingPositionOnlyDeleteWriterBuilder::new("rolling")
        .with_flush_rows(FLUSH_ROWS)
        .build(Rolling { target: 1, files: Vec::new() }, None)
        .unwrap();
    for position in 0..(FLUSH_ROWS as i64 + 1) {
        writer.write_delete("a.parquet", position).unwrap();
    }

    let (files, disk) = close(&mut writer).unwrap();
    assert!(files.len() >= 2);
    let mut rows = Vec::new();
    for file in &disk {
        rows.extend(read_rows(file));
    }
    assert_eq!(rows.len(), FLUSH_ROWS + 1);
    assert!(rows.windows(2).all(|pair| pair[0].1 < pair[1].1));
    assert_eq!(files[0].file.record_count, 64);
    assert_eq!(files[1].file.record_count, 1);
}

#[test]
fn matches_iceberg_java_char_sequence_order_and_accepts_large_positions() {
    let mut writer = build(usize::MAX);
    writer.write_delete("\u{e000}.parquet", 0).unwrap();
    writer.write_delete("\u{10000}.parquet", i64::MAX).unwrap();

    let (_files, disk) = close(&mut writer).unwrap();
    assert_eq!(
        read_rows(&disk[0]),
        vec![
            ("\u{e000}.parquet".to_string(), 0),
            ("\u{10000}.parquet".to_string(), i64::MAX),
        ]
    );
}

#[test]
fn rejects_zero_flush_rows() {
    let builder = SortingPositionOnlyDeleteWriterBuilder::new("rolling");
    assert!(builder.ensure_flush_rows().is_ok());
    assert!(builder.with_flush_rows(0).ensure_flush_rows().is_err());
    let err = SortingPositionOnlyDeleteWriterBuilder::new("rolling")
        .with_flush_rows(0)
        .build::<Rolling, String>(Rolling { target: 1, files: Vec::new() }, None)
        .err()
        .expect("expected invalid flush_rows error");
    assert_eq!(err.kind(), ErrorKind::DataInvalid);
    assert_eq!(
        err.message(),
        "Sorting position-only delete writer flush_rows must be greater than zero."
    );
}

#[test]
fn close_is_one_shot() {
    let mut writer = build(usize::MAX);
    assert!(close(&mut writer).unwrap().0.is_empty());
    assert!(close(&mut writer).is_err());
}

#[test]
fn a_closed_writer_takes_nothing() {
    let mut writer = build(usize::MAX);
    assert!(writer.ensure_open().is_ok());
    let _ = close(&mut writer).unwrap();
    for err in [
        writer.ensure_open().unwrap_err(),
        writer.write_delete("a", -1).unwrap_err(),
        write(&mut writer, delete_batch(vec!["a"], vec![-1])).unwrap_err(),
    ] {
        assert_eq!(err.kind(), ErrorKind::Unexpected);
        assert_eq!(err.message(), "Sorting position-only delete writer is already closed.");
    }
}

#[test]
fn negative_positions_are_refused_one_by_one() {
    let mut writer = build(usize::MAX);
    let err = writer.write_delete("a", i64::MIN).unwrap_err();
    assert_eq!(err.kind(), ErrorKind::DataInvalid);
    assert_eq!(
        err.message(),
        "Position delete row position must be non-negative, got -9223372036854775808."
    );
    assert!(close(&mut writer).unwrap().0.is_empty());
}

#[test]
fn readding_a_delete_changes_nothing() {
    let mut writer = build(usize::MAX);
    writer.write_delete("a", 3).unwrap();
    writer.write_delete("a", 3).unwrap();
    writer.write_delete("a", 1).unwrap();
    let (files, disk) = close(&mut writer).unwrap();
    assert_eq!(files[0].file.record_count, 2);
    assert_eq!(read_rows(&disk[0]), vec![("a".to_string(), 1), ("a".to_string(), 3)]);
}

#[test]
fn neither_order_nor_repetition_of_deletes_matters() {
    let rows = [("b", 4), ("a", 9), ("\u{e9}", 0), ("a", 2), ("b", 1)];
    let mut one = build(usize::MAX);
    for (path, position) in rows {
        one.write_delete(path, position).unwrap();
    }
    let mut other = build(usize::MAX);
    for _ in 0..2 {
        for (path, position) in rows.iter().rev() {
            other.write_delete(path, *position).unwrap();
        }
    }
    let (_, first) = close(&mut one).unwrap();
    let (_, second) = close(&mut other).unwrap();
    assert_eq!(read_rows(&first[0]), read_rows(&second[0]));
    assert_eq!(read_rows(&first[0]).len(), 5);
}

#[test]
fn a_failed_validation_is_passed_on() {
    let mut writer = build(usize::MAX);
    let failed = Err(Error::new(ErrorKind::DataInvalid, "wrong schema".to_string()));
    let err = writer.write_record_batch(&delete_batch(vec!["a"], vec![1]), failed).unwrap_err();
    assert_eq!(err.message(), "wrong schema");
    assert!(close(&mut writer).unwrap().0.is_empty());
}

#[test]
fn wrong_columns_and_nulls_are_refused() {
    let mut writer = build(usize::MAX);
    let numbers = RecordBatch::try_new(
        Arc::new(Schema::new(vec![Field::new("n", DataType::Int64, false)])),
        vec![Arc::new(Int64Array::from(vec![1i64]))],
    )
    .unwrap();
    let err = write(&mut writer, ArrowBatch(numbers)).unwrap_err();
    assert_eq!(err.message(), "Position-delete file_path must be a StringArray.");

    let texts = RecordBatch::try_new(
        Arc::new(Schema::new(vec![
            Field::new("s", DataType::Utf8, false),
            Field::new("t", DataType::Utf8, false),
        ])),
        vec![
            Arc::new(StringArray::from(vec!["a"])),
            Arc::new(StringArray::from(vec!["1"])),
        ],
    )
    .unwrap();
    let err = write(&mut writer, ArrowBatch(texts)).unwrap_err();
    assert_eq!(err.message(), "Position-delete pos must be an Int64Array.");

    let nulls = RecordBatch::try_new(
        Arc::new(Schema::new(vec![
            Field::new("s", DataType::Utf8, true),
            Field::new("n", DataType::Int64, false),
        ])),
        vec![
            Arc::new(StringArray::from(vec![Some("a"), None])),
            Arc::new(Int64Array::from(vec![1i64, -1])),
        ],
    )
    .unwrap();
    let err = write(&mut writer, ArrowBatch(nulls)).unwrap_err();
    assert_eq!(err.message(), "Position-delete file_path and pos values must not be null.");
    assert!(close(&mut writer).unwrap().0.is_empty());
}

#[test]
fn nothing_is_written_after_a_failure() {
    let mut writer: Writer = SortingPositionOnlyDeleteWriterBuilder::new("rolling")
        .with_flush_rows(1)
        .build(Rolling { target: 1, files: Vec::new() }, None)
        .unwrap();
    for position in 0..3 {
        writer.write_delete("a", position).unwrap();
    }
    let mut closing = writer.close().unwrap();
    let first = closing.next_step(Ok(()));
    assert!(matches!(first, ClosingStep::Write(rows) if rows == vec![("a".to_string(), 0)]));
    let failed = Err(Error::new(ErrorKind::Unexpected, "disk full".to_string()));
    assert!(matches!(closing.next_step(failed), ClosingStep::Close));
    assert!(matches!(closing.next_step(Ok(())), ClosingStep::Close));

    assert!(closing.writer_mut().close().is_ok());
    assert!(closing.writer_mut().close().is_err());
    let files: Result<Files, Error> = Ok(Vec::new());
    assert_eq!(closing.outcome(files).unwrap_err().message(), "disk full");
    assert_eq!(writer.write_delete("a", 9).unwrap_err().kind(), ErrorKind::Unexpected);
    assert_eq!(writer.close().unwrap_err().kind(), ErrorKind::Unexpected);
}

#[test]
fn a_write_error_wins_over_the_outcome_of_closing() {
    let mut closing = build(usize::MAX).close().unwrap();
    let failed = Err(Error::new(ErrorKind::Unexpected, "disk full".to_string()));
    assert!(matches!(closing.next_step(failed), ClosingStep::Close));
    let no_footer = Err(Error::new(ErrorKind::Unexpected, "no footer".to_string()));
    let files: Result<Files, Error> = no_footer;
    assert_eq!(closing.outcome(files).unwrap_err().message(), "disk full");

    let mut closing = build(usize::MAX).close().unwrap();
    assert!(matches!(closing.next_step(Ok(())), ClosingStep::Close));
    let files: Result<Files, Error> =
        Err(Error::new(ErrorKind::Unexpected, "no footer".to_string()));
    assert_eq!(closing.outcome(files).unwrap_err().message(), "no footer");
}

#[test]
fn runs_come_in_bounded_batches() {
    assert_eq!(DEFAULT_FLUSH_ROWS, 8192);
    let mut map = PositionMap::new();
    for position in [4, 2, 0] {
        map.insert("b", position);
        map.insert("a", position);
        map.insert("c", position);
    }
    let mut run = map.into_sorted(4);
    let mut sizes = Vec::new();
    let mut all = Vec::new();
    while let Some(rows) = run.next_rows() {
        sizes.push(rows.len());
        all.extend(rows);
    }
    assert_eq!(sizes, vec![4, 4, 1]);
    let mut expected = Vec::new();
    for path in ["a", "b", "c"] {
        for position in [0, 2, 4] {
            expected.push((path.to_string(), position));
        }
    }
    assert_eq!(all, expected);
    assert!(run.next_rows().is_none());
}

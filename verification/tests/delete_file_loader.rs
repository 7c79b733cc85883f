//! Loading position deletes, and planning the reading of delete files.
use std::sync::Arc;

use arrow_array::{Int64Array, LargeStringArray, RecordBatch, StringArray};
use arrow_schema::{DataType, Field, Schema};
use iceberg_deletes::arrow_batch::{row_batch, ArrowBatch};
use iceberg_deletes::batch::{Column, Field as RowField, RowBatch};
use iceberg_deletes::delete_file_loader::{
    BasicDeleteFileLoader, DeleteFileLoader, PositionDeleteIndex, PositionDeleteIndexLoader,
    PositionIndexLoad, ScanMetrics,
};
use iceberg_deletes::error::{Error, ErrorKind};
use iceberg_deletes::metadata::{DataContentType, DataFileFormat, FileScanTaskDeleteFile};
use parquet::arrow::PARQUET_FIELD_ID_META_KEY;

fn field(name: &str, data_type: DataType, nullable: bool, id: &str) -> Field {
    Field::new(name, data_type, nullable).with_metadata([(PARQUET_FIELD_ID_META_KEY, id)])
}

fn path_field() -> Field {
    field("file_path", DataType::Utf8, false, "2147483546")
}

fn pos_field() -> Field {
    field("pos", DataType::Int64, false, "2147483545")
}

fn position_delete_batch(paths: Vec<&str>, positions: Vec<i64>) -> RecordBatch {
    RecordBatch::try_new(
        Arc::new(Schema::new(vec![path_field(), pos_field()])),
        vec![
            Arc::new(StringArray::from(paths)),
            Arc::new(Int64Array::from(positions)),
        ],
    )
    .unwrap()
}

fn position_delete_task(
    path: &str,
    record_count: Option<u64>,
    referenced_data_file: Option<&str>,
) -> FileScanTaskDeleteFile {
    FileScanTaskDeleteFile {
        file_path: path.to_string(),
        file_size_in_bytes: 1,
        file_type: DataContentType::PositionDeletes,
        file_format: DataFileFormat::Parquet,
        partition_spec_id: 0,
        equality_ids: None,
        referenced_data_file: referenced_data_file.map(str::to_string),
        content_offset: None,
        content_size_in_bytes: None,
        record_count,
        key_metadata: None,
    }
}

fn stream(batches: Vec<RecordBatch>) -> Vec<Result<ArrowBatch, Error>> {
    batches.into_iter().map(|batch| Ok(ArrowBatch(batch))).collect()
}

fn load(
    task: &FileScanTaskDeleteFile,
    data_file: &str,
    batches: Vec<RecordBatch>,
) -> Result<PositionDeleteIndex, Error> {
    PositionDeleteIndexLoader::new("fs").load_file_scoped_positions(
        task,
        data_file,
        stream(batches),
    )
}

#[test]
fn test_position_delete_index_loader_reads_valid_file_and_deduplicates() {
    let batch = position_delete_batch(
        vec!["data.parquet", "data.parquet", "data.parquet"],
        vec![5, 1, 5],
    );
    let task = position_delete_task("pos-delete.parquet", Some(3), Some("data.parquet"));
    let index = load(&task, "data.parquet", vec![batch]).unwrap();

    assert_eq!(index.len(), 2);
    assert!(!index.is_empty());
    assert!(index.contains(1));
    assert!(index.contains(5));
    assert_eq!(index.iter(), vec![1, 5]);
}

#[test]
fn test_position_delete_index_loader_accepts_additional_columns() {
    let schema = Arc::new(Schema::new(vec![
        path_field(),
        pos_field(),
        Field::new("row_payload", DataType::Int64, true),
    ]));
    let batch = RecordBatch::try_new(
        schema,
        vec![
            Arc::new(StringArray::from(vec!["data.parquet"])),
            Arc::new(Int64Array::from(vec![7i64])),
            Arc::new(Int64Array::from(vec![Some(42i64)])),
        ],
    )
    .unwrap();
    let task = position_delete_task("pos-delete-with-row.parquet", Some(1), Some("data.parquet"));
    let index = load(&task, "data.parquet", vec![batch]).unwrap();

    assert_eq!(index.iter(), vec![7]);
}

#[test]
fn test_position_delete_index_loader_requires_reserved_field_ids() {
    let schema = Arc::new(Schema::new(vec![
        Field::new("file_path", DataType::Utf8, false),
        pos_field(),
    ]));
    let batch = RecordBatch::try_new(
        schema,
        vec![
            Arc::new(StringArray::from(vec!["data.parquet"])),
            Arc::new(Int64Array::from(vec![1i64])),
        ],
    )
    .unwrap();
    let task = position_delete_task("pos-delete-bad-id.parquet", Some(1), Some("data.parquet"));
    let err = load(&task, "data.parquet", vec![batch]).unwrap_err();

    assert_eq!(err.kind(), ErrorKind::DataInvalid);
    assert!(err.message().contains("reserved field id"));
    assert_eq!(
        err.message(),
        "Position-delete file pos-delete-bad-id.parquet has no `file_path` column with reserved \
         field id 2147483546"
    );
}

#[test]
fn test_position_delete_index_loader_rejects_manifest_target_mismatch() {
    let task = position_delete_task("pos-delete.parquet", Some(1), Some("other.parquet"));
    let batch = position_delete_batch(vec!["data.parquet"], vec![1]);
    let err = load(&task, "data.parquet", vec![batch]).unwrap_err();

    assert_eq!(err.kind(), ErrorKind::DataInvalid);
    assert!(err.message().contains("references other.parquet"));
}

#[test]
fn test_position_delete_index_loader_rejects_row_target_mismatch() {
    let task = position_delete_task("pos-delete.parquet", Some(1), None);
    let batch = position_delete_batch(vec!["other.parquet"], vec![1]);
    let err = load(&task, "data.parquet", vec![batch]).unwrap_err();

    assert_eq!(err.kind(), ErrorKind::DataInvalid);
    assert!(err.message().contains("contains target other.parquet"));
}

#[test]
fn test_position_delete_index_loader_rejects_negative_position() {
    let task = position_delete_task("pos-delete.parquet", Some(1), Some("data.parquet"));
    let batch = position_delete_batch(vec!["data.parquet"], vec![-1]);
    let err = load(&task, "data.parquet", vec![batch]).unwrap_err();

    assert_eq!(err.kind(), ErrorKind::DataInvalid);
    assert!(err.message().contains("negative row position"));
    assert_eq!(
        err.message(),
        "Position-delete file pos-delete.parquet contains a negative row position -1"
    );
}

#[test]
fn test_position_delete_index_loader_validates_record_count() {
    let task = position_delete_task("pos-delete.parquet", Some(3), Some("data.parquet"));
    let batch = position_delete_batch(vec!["data.parquet", "data.parquet"], vec![1, 2]);
    let err = load(&task, "data.parquet", vec![batch]).unwrap_err();

    assert_eq!(err.kind(), ErrorKind::DataInvalid);
    assert!(err.message().contains("expected 3 from record_count"));
    assert_eq!(
        err.message(),
        "Position-delete file pos-delete.parquet contains 2 rows, expected 3 from record_count"
    );
}

#[test]
fn test_position_delete_index_loader_rejects_dv_coordinates() {
    let mut task = position_delete_task("pos-delete.parquet", Some(1), Some("data.parquet"));
    task.content_offset = Some(0);
    task.content_size_in_bytes = Some(10);
    let batch = position_delete_batch(vec!["data.parquet"], vec![1]);
    let err = load(&task, "data.parquet", vec![batch]).unwrap_err();

    assert_eq!(err.kind(), ErrorKind::DataInvalid);
    assert!(err.message().contains("deletion-vector content coordinates"));
}

#[test]
fn loader_refuses_other_kinds_of_files() {
    let mut task = position_delete_task("f", None, None);
    task.file_type = DataContentType::EqualityDeletes;
    task.file_format = DataFileFormat::Avro;
    let err = load(&task, "data.parquet", vec![]).unwrap_err();
    assert_eq!(err.kind(), ErrorKind::FeatureUnsupported);
    assert_eq!(
        err.message(),
        "Expected a V2 Parquet position-delete file, got EqualityDeletes/Avro at f"
    );

    let mut task = position_delete_task("f", None, None);
    task.equality_ids = Some(vec![1]);
    let err = load(&task, "data.parquet", vec![]).unwrap_err();
    assert_eq!(err.kind(), ErrorKind::FeatureUnsupported);
    assert_eq!(
        err.message(),
        "Expected a V2 Parquet position-delete file, got PositionDeletes/Parquet at f"
    );
}

#[test]
fn loader_refuses_a_single_coordinate() {
    let mut task = position_delete_task("f", None, None);
    task.content_size_in_bytes = Some(10);
    let err = load(&task, "data.parquet", vec![]).unwrap_err();
    assert_eq!(
        err.message(),
        "V2 Parquet position-delete file f must not carry deletion-vector content coordinates"
    );
}

#[test]
fn loader_refuses_repeated_columns() {
    let schema = Arc::new(Schema::new(vec![path_field(), pos_field(), pos_field()]));
    let batch = RecordBatch::try_new(
        schema,
        vec![
            Arc::new(StringArray::from(vec!["d"])),
            Arc::new(Int64Array::from(vec![1i64])),
            Arc::new(Int64Array::from(vec![2i64])),
        ],
    )
    .unwrap();
    let err = load(&position_delete_task("f", None, None), "d", vec![batch]).unwrap_err();
    assert_eq!(
        err.message(),
        "Position-delete file f has multiple columns with reserved field id 2147483545"
    );
}

#[test]
fn loader_finds_columns_by_field_id_in_any_order() {
    let schema = Arc::new(Schema::new(vec![
        field("x", DataType::Int64, false, "+2147483545"),
        field("y", DataType::Utf8, false, "02147483546"),
        field("file_path", DataType::Utf8, false, "not a number"),
        field("pos", DataType::Int64, false, "21474835450"),
    ]));
    let batch = RecordBatch::try_new(
        schema,
        vec![
            Arc::new(Int64Array::from(vec![9i64])),
            Arc::new(StringArray::from(vec!["d"])),
            Arc::new(StringArray::from(vec!["e"])),
            Arc::new(Int64Array::from(vec![1i64])),
        ],
    )
    .unwrap();
    let index = load(&position_delete_task("f", None, None), "d", vec![batch]).unwrap();
    assert_eq!(index.iter(), vec![9]);
}

#[test]
fn loader_refuses_columns_of_other_types() {
    let schema = Arc::new(Schema::new(vec![
        field("file_path", DataType::LargeUtf8, false, "2147483546"),
        pos_field(),
    ]));
    let batch = RecordBatch::try_new(
        schema,
        vec![
            Arc::new(LargeStringArray::from(vec!["d"])),
            Arc::new(Int64Array::from(vec![1i64])),
        ],
    )
    .unwrap();
    let err = load(&position_delete_task("f", None, None), "d", vec![batch]).unwrap_err();
    assert_eq!(err.message(), "Position-delete file f has a non-Utf8 file_path column");

    let schema = Arc::new(Schema::new(vec![
        path_field(),
        field("pos", DataType::Utf8, false, "2147483545"),
    ]));
    let batch = RecordBatch::try_new(
        schema,
        vec![
            Arc::new(StringArray::from(vec!["d"])),
            Arc::new(StringArray::from(vec!["1"])),
        ],
    )
    .unwrap();
    let err = load(&position_delete_task("f", None, None), "d", vec![batch]).unwrap_err();
    assert_eq!(err.message(), "Position-delete file f has a non-Int64 pos column");
}

#[test]
fn loader_refuses_nulls() {
    let schema = Arc::new(Schema::new(vec![
        path_field(),
        field("pos", DataType::Int64, true, "2147483545"),
    ]));
    let batch = RecordBatch::try_new(
        schema,
        vec![
            Arc::new(StringArray::from(vec!["d", "d"])),
            Arc::new(Int64Array::from(vec![Some(1i64), None])),
        ],
    )
    .unwrap();
    let err = load(&position_delete_task("f", None, None), "d", vec![batch]).unwrap_err();
    assert_eq!(err.message(), "Position-delete file f contains nulls");
}

#[test]
fn loader_adds_up_batches_and_passes_stream_errors_on() {
    let task = position_delete_task("f", Some(3), Some("d"));
    let batches = vec![
        position_delete_batch(vec!["d", "d"], vec![i64::MAX, 0]),
        position_delete_batch(vec!["d"], vec![0]),
    ];
    let index = load(&task, "d", batches).unwrap();
    assert_eq!(index.len(), 2);
    assert_eq!(index.iter(), vec![0, i64::MAX as u64]);
    assert!(!index.contains(u64::MAX));

    let loader = PositionDeleteIndexLoader::new("fs");
    let failing = vec![Err(Error::new(ErrorKind::Unexpected, "no such file".to_string()))];
    let err = loader.load_file_scoped_positions(&task, "d", failing).unwrap_err();
    assert_eq!(err.kind(), ErrorKind::Unexpected);
    assert_eq!(err.message(), "no such file");
}

#[test]
fn loader_of_an_empty_file_gives_an_empty_index() {
    let index = load(&position_delete_task("f", Some(0), None), "d", vec![]).unwrap();
    assert_eq!(index.len(), 0);
    assert!(index.is_empty());
    assert_eq!(index.iter(), Vec::<u64>::new());
    let err = load(&position_delete_task("f", Some(1), None), "d", vec![]).unwrap_err();
    assert_eq!(
        err.message(),
        "Position-delete file f contains 0 rows, expected 1 from record_count"
    );
}

#[test]
fn load_takes_batches_one_by_one() {
    let task = position_delete_task("f", None, Some("d"));
    let mut load = PositionIndexLoad::begin(&task, "d").unwrap();
    for position in [4, 3] {
        let rows = row_batch(&ArrowBatch(position_delete_batch(vec!["d"], vec![position])));
        assert!(load.accepts(&rows));
        load = load.add_batch(&rows).unwrap();
    }
    assert_eq!(load.finish().unwrap().iter(), vec![3, 4]);
}

#[test]
fn a_later_batch_without_the_columns_is_not_loaded() {
    let narrow = RecordBatch::try_new(
        Arc::new(Schema::new(vec![path_field()])),
        vec![Arc::new(StringArray::from(vec!["d"]))],
    )
    .unwrap();
    let loader = PositionDeleteIndexLoader::new("fs");
    let task = position_delete_task("f", None, Some("d"));
    let batches = vec![position_delete_batch(vec!["d"], vec![1]), narrow];
    assert!(loader.try_load_file_scoped_positions(&task, "d", stream(batches.clone())).is_none());
    let refused = loader.try_load_file_scoped_positions(&task, "e", stream(batches));
    assert_eq!(
        refused.unwrap().unwrap_err().message(),
        "Position-delete file f references d, expected e"
    );
    let whole = vec![position_delete_batch(vec!["d"], vec![1])];
    let index = loader.try_load_file_scoped_positions(&task, "d", stream(whole)).unwrap().unwrap();
    assert_eq!(index.iter(), vec![1]);
}

#[test]
fn load_takes_plain_batches() {
    let task = position_delete_task("f", Some(2), None);
    let batch = RowBatch {
        fields: vec![
            RowField {
                name: "n".to_string(),
                field_id: Some("2147483545".to_string()),
                nullable: false,
            },
            RowField {
                name: "s".to_string(),
                field_id: Some("2147483546".to_string()),
                nullable: false,
            },
        ],
        columns: vec![
            Column::Int64(vec![Some(6), Some(6)]),
            Column::Utf8(vec![Some("d".to_string()), Some("d".to_string())]),
        ],
        num_rows: 2,
    };
    let load = PositionIndexLoad::begin(&task, "d").unwrap().add_batch(&batch).unwrap();
    assert_eq!(load.finish().unwrap().iter(), vec![6]);
}

#[test]
fn read_plan_takes_equality_columns_or_all() {
    let loader = BasicDeleteFileLoader::new("fs", ScanMetrics::new());
    assert_eq!(*loader.file_io(), "fs");
    assert_eq!(loader.scan_metrics().bytes_read, 0);

    let mut task = position_delete_task("del.parquet", None, None);
    task.file_size_in_bytes = 77;
    task.key_metadata = Some(vec![1, 2, 3]);
    let read = loader.read_delete_file(&task, &vec![2147483546, 2147483545]);
    assert_eq!(read.file_path, "del.parquet");
    assert_eq!(read.file_size_in_bytes, 77);
    assert_eq!(read.key_metadata, Some(vec![1, 2, 3]));
    assert_eq!(read.field_ids, vec![2147483546, 2147483545]);

    task.equality_ids = Some(vec![1]);
    task.key_metadata = None;
    let read = loader.read_delete_file(&task, &vec![1, 2]);
    assert_eq!(read.field_ids, vec![1]);
    assert_eq!(read.key_metadata, None);
}

#[test]
fn index_loader_reads_through_its_file_handle() {
    let loader = PositionDeleteIndexLoader::new("handle");
    assert_eq!(*loader.basic_loader().file_io(), "handle");
    assert_eq!(loader.basic_loader().scan_metrics().bytes_read, 0);
}

//! Table metadata that the readers and writers exchange: schemas, scan tasks, data files.
use vstd::prelude::*;

verus! {

/// The reserved field id of the `file_path` column of position delete files.
pub const RESERVED_FIELD_ID_DELETE_FILE_PATH: i32 = 2147483546;

/// The reserved field id of the `pos` column of position delete files.
pub const RESERVED_FIELD_ID_DELETE_FILE_POS: i32 = 2147483545;

/// What the rows of a file stand for.
#[derive(Debug, Clone, Copy, PartialEq, Eq, Structural)]
pub enum DataContentType {
    /// Rows of the table.
    Data,
    /// Deleted rows, each by data file and position.
    PositionDeletes,
    /// Deleted rows, by the values of the equality columns.
    EqualityDeletes,
}

/// The format of a file.
#[derive(Debug, Clone, Copy, PartialEq, Eq, Structural)]
pub enum DataFileFormat {
    /// Apache Avro.
    Avro,
    /// Apache ORC.
    Orc,
    /// Apache Parquet.
    Parquet,
    /// Puffin.
    Puffin,
}

impl DataContentType {
    /// The name of the variant.
    pub open spec fn name_spec(self) -> Seq<char> {
        match self {
            DataContentType::Data => "Data"@,
            DataContentType::PositionDeletes => "PositionDeletes"@,
            DataContentType::EqualityDeletes => "EqualityDeletes"@,
        }
    }

    /// The name of the variant.
    pub fn name(&self) -> (name: &'static str)
        ensures
            name@ == self.name_spec(),
    {
        match self {
            DataContentType::Data => "Data",
            DataContentType::PositionDeletes => "PositionDeletes",
            DataContentType::EqualityDeletes => "EqualityDeletes",
        }
    }
}

impl DataFileFormat {
    /// The name of the variant.
    pub open spec fn name_spec(self) -> Seq<char> {
        match self {
            DataFileFormat::Avro => "Avro"@,
            DataFileFormat::Orc => "Orc"@,
            DataFileFormat::Parquet => "Parquet"@,
            DataFileFormat::Puffin => "Puffin"@,
        }
    }

    /// The name of the variant.
    pub fn name(&self) -> (name: &'static str)
        ensures
            name@ == self.name_spec(),
    {
        match self {
            DataFileFormat::Avro => "Avro",
            DataFileFormat::Orc => "Orc",
            DataFileFormat::Parquet => "Parquet",
            DataFileFormat::Puffin => "Puffin",
        }
    }
}

/// The type of a schema field.
#[derive(Debug, Clone, Copy, PartialEq, Eq, Structural)]
pub enum PrimitiveType {
    /// Signed 64-bit numbers.
    Long,
    /// Texts.
    String,
}

/// One field of a schema.
#[derive(Debug)]
pub struct NestedField {
    /// The field id.
    pub id: i32,
    /// The field's name.
    pub name: String,
    /// Whether every row must have a value.
    pub required: bool,
    /// The type of the values.
    pub field_type: PrimitiveType,
}

/// A schema: its fields in column order.
#[derive(Debug)]
pub struct Schema {
    /// The fields.
    pub fields: Vec<NestedField>,
}

/// A delete file that a scan has to apply.
#[derive(Debug)]
pub struct FileScanTaskDeleteFile {
    /// Where the delete file lies.
    pub file_path: String,
    /// The size of the delete file.
    pub file_size_in_bytes: u64,
    /// What the rows of the delete file stand for.
    pub file_type: DataContentType,
    /// The format of the delete file.
    pub file_format: DataFileFormat,
    /// The partition spec that the delete file was written for.
    pub partition_spec_id: i32,
    /// The field ids of the equality columns, for equality deletes.
    pub equality_ids: Option<Vec<i32>>,
    /// The only data file that the delete file refers to, where that is known.
    pub referenced_data_file: Option<String>,
    /// Where a deletion vector begins in the file.
    pub content_offset: Option<i64>,
    /// How long a deletion vector is.
    pub content_size_in_bytes: Option<i64>,
    /// The number of rows that the manifest promises.
    pub record_count: Option<u64>,
    /// What is needed to decrypt the file.
    pub key_metadata: Option<Vec<u8>>,
}

/// The partition that a writer writes to.
#[derive(Debug)]
pub struct PartitionKey<P> {
    /// The partition's values.
    pub data: P,
    /// The id of the partition spec.
    pub spec_id: i32,
}

/// A file as it is committed to the table. `F` is what the file writer reports of the file.
#[derive(Debug)]
pub struct DataFile<F, P> {
    /// The file itself, as the file writer reports it.
    pub file: F,
    /// What its rows stand for.
    pub content: DataContentType,
    /// The partition's values, where a partition was given.
    pub partition: Option<P>,
    /// The id of the partition spec, where a partition was given.
    pub partition_spec_id: Option<i32>,
    /// The only data file that the rows refer to, where there is just one.
    pub referenced_data_file: Option<String>,
    /// The table sort order of the rows.
    pub sort_order_id: Option<i32>,
}

} // verus!

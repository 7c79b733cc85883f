//! Arrow record batches: reading them into [`RowBatch`] values, and building them.
use crate::batch::{optional_text, optional_texts, BatchModel, Column, ColumnModel, Field, RowBatch};
use arrow_array::cast::AsArray;
use arrow_array::types::{
    TimestampMicrosecondType, TimestampMillisecondType, TimestampNanosecondType,
    TimestampSecondType,
};
use arrow_array::{Array, Int64Array, RecordBatch, StringArray};
use arrow_cast::display::array_value_to_string;
use arrow_schema::{DataType, Schema, TimeUnit};
use parquet::arrow::PARQUET_FIELD_ID_META_KEY;
use std::sync::Arc;
use vstd::prelude::*;
use vstd::utf8::*;

verus! {

/// A record batch of the `arrow_array` crate.
#[verifier::external_body]
#[derive(Debug)]
pub struct ArrowBatch(pub RecordBatch);

/// What a record batch holds: the names and Parquet field ids of its columns, which of them may hold
/// nulls, the values of the columns of type `Utf8` and `Int64`, and the number of rows.
pub uninterp spec fn contents(batch: ArrowBatch) -> BatchModel;

/// The cells of a record batch as displayed, by column and row: `None` for a null, else the text
/// of the value or the message that says why it cannot be displayed.
pub uninterp spec fn displayed(batch: ArrowBatch) -> Seq<Seq<Option<Result<Seq<char>, Seq<char>>>>>;

/// What a type says about time zones.
#[derive(Debug, Clone, Copy, PartialEq, Eq, Structural)]
pub enum ValueType {
    /// Timestamps with a time zone.
    Zoned,
    /// A dictionary of timestamps with a time zone, or of dictionaries.
    Encoded,
    /// Anything else.
    Other,
}

/// The types in the columns of a record batch: for each column its own type, followed by the types
/// nested in it.
pub uninterp spec fn value_types(batch: ArrowBatch) -> Seq<Seq<ValueType>>;

/// The instants in a record batch, by column and row: for a timestamp with a time zone that is a
/// date of the calendar its seconds since 1970 in UTC, and `None` for every other cell.
pub uninterp spec fn instants(batch: ArrowBatch) -> Seq<Seq<Option<i64>>>;

/// One day after the first second of the calendar, which begins with the year -262143.
pub const FIRST_LOCAL_INSTANT: i64 = -8334601142400;

/// One day before the last second of the calendar, which ends with the year 262142.
pub const LAST_LOCAL_INSTANT: i64 = 8210266790399;

/// A cell can be displayed. The local time of an instant lies less than a day away from the instant,
/// so a timestamp with a time zone must not lie in the first or the last day of the calendar. Where
/// such timestamps are nested in the column or encoded by a dictionary, the column is left out.
pub open spec fn displayable(batch: ArrowBatch, column: int, row: int) -> bool {
    let types = value_types(batch)[column];
    if types.len() == 1 && types[0] == ValueType::Zoned {
        instants(batch)[column][row] matches Some(seconds) ==> FIRST_LOCAL_INSTANT <= seconds
            <= LAST_LOCAL_INSTANT
    } else {
        forall|i: int| 0 <= i < types.len() ==> (#[trigger] types[i]) == ValueType::Other
    }
}

/// `RecordBatch::num_rows`: the number of rows.
#[verifier::external_body]
pub(crate) fn num_rows(batch: &ArrowBatch) -> (rows: usize)
    ensures
        rows == contents(*batch).rows,
{
    batch.0.num_rows()
}

/// `RecordBatch::num_columns`: the number of columns. The schema has one field per column.
#[verifier::external_body]
pub(crate) fn num_columns(batch: &ArrowBatch) -> (columns: usize)
    ensures
        columns == contents(*batch).columns.len(),
        columns == contents(*batch).names.len(),
        columns == contents(*batch).field_ids.len(),
        columns == contents(*batch).nullable.len(),
{
    batch.0.num_columns()
}

/// `Field::name`: the name of a column.
#[verifier::external_body]
fn column_name(batch: &ArrowBatch, column: usize) -> (name: String)
    requires
        column < contents(*batch).columns.len(),
    ensures
        name@ == contents(*batch).names[column as int],
{
    batch.0.schema_ref().field(column).name().clone()
}

/// `Metadata::get` for the key under which Parquet readers keep a column's field id: the text that
/// is kept there, if any.
#[verifier::external_body]
fn column_field_id(batch: &ArrowBatch, column: usize) -> (field_id: Option<String>)
    requires
        column < contents(*batch).columns.len(),
    ensures
        optional_text(field_id) == contents(*batch).field_ids[column as int],
{
    batch.0.schema_ref().field(column).metadata().get(PARQUET_FIELD_ID_META_KEY).cloned()
}

/// `Field::is_nullable`: tells whether a column may hold nulls.
#[verifier::external_body]
fn column_nullable(batch: &ArrowBatch, column: usize) -> (nullable: bool)
    requires
        column < contents(*batch).columns.len(),
    ensures
        nullable == contents(*batch).nullable[column as int],
{
    batch.0.schema_ref().field(column).is_nullable()
}

/// `StringArray::iter` on a column that is a `StringArray`: its texts, one per row, with `None` for
/// a null. There is none where the column is an array of another type.
#[verifier::external_body]
fn column_texts(batch: &ArrowBatch, column: usize) -> (texts: Option<Vec<Option<String>>>)
    requires
        column < contents(*batch).columns.len(),
    ensures
        match texts {
            Some(texts) => {
                &&& contents(*batch).columns[column as int] == ColumnModel::Utf8(optional_texts(texts@))
                &&& texts.len() == contents(*batch).rows
            },
            None => contents(*batch).columns[column as int] !is Utf8,
        },
{
    let array = batch.0.column(column).as_any().downcast_ref::<StringArray>()?;
    Some(array.iter().map(|text| text.map(str::to_owned)).collect())
}

/// `Int64Array::iter` on a column that is an `Int64Array`: its numbers, one per row, with `None`
/// for a null. There is none where the column is an array of another type.
#[verifier::external_body]
fn column_numbers(batch: &ArrowBatch, column: usize) -> (numbers: Option<Vec<Option<i64>>>)
    requires
        column < contents(*batch).columns.len(),
    ensures
        match numbers {
            Some(numbers) => {
                &&& contents(*batch).columns[column as int] == ColumnModel::Int64(numbers@)
                &&& numbers.len() == contents(*batch).rows
            },
            None => contents(*batch).columns[column as int] !is Int64,
        },
{
    let array = batch.0.column(column).as_any().downcast_ref::<Int64Array>()?;
    Some(array.iter().collect())
}

/// `Array::is_null`: tells whether a cell is null.
#[verifier::external_body]
pub(crate) fn cell_is_null(batch: &ArrowBatch, column: usize, row: usize) -> (null: bool)
    requires
        column < contents(*batch).columns.len(),
        row < contents(*batch).rows,
    ensures
        null == (displayed(*batch)[column as int][row as int] is None),
{
    batch.0.column(column).is_null(row)
}

/// `Schema::flattened_fields` on a schema of one field of a column's type: the column's own type,
/// followed by the types nested in it.
#[verifier::external_body]
fn column_types(batch: &ArrowBatch, column: usize) -> (types: Vec<ValueType>)
    requires
        column < contents(*batch).columns.len(),
    ensures
        types@ == value_types(*batch)[column as int],
{
    let data_type = batch.0.column(column).data_type().clone();
    let schema = Schema::new(vec![arrow_schema::Field::new("", data_type, true)]);
    let fields = schema.flattened_fields().into_iter();
    let types = fields.map(|field| match field.data_type() {
        DataType::Timestamp(_, Some(_)) => ValueType::Zoned,
        DataType::Dictionary(_, values) => match values.as_ref() {
            DataType::Timestamp(_, Some(_)) | DataType::Dictionary(_, _) => ValueType::Encoded,
            _ => ValueType::Other,
        },
        _ => ValueType::Other,
    });
    types.collect()
}

/// `PrimitiveArray::value_as_datetime` on a column of timestamps with a time zone: the instant of a
/// cell, in seconds since 1970 in UTC, where it is a date of the calendar. There is none where the
/// column is an array of another type.
#[verifier::external_body]
fn cell_instant(batch: &ArrowBatch, column: usize, row: usize) -> (seconds: Option<i64>)
    requires
        column < contents(*batch).columns.len(),
        row < contents(*batch).rows,
        displayed(*batch)[column as int][row as int] is Some,
    ensures
        seconds == instants(*batch)[column as int][row as int],
{
    let array = batch.0.column(column);
    let unit = match array.data_type() {
        DataType::Timestamp(unit, Some(_)) => unit,
        _ => return None,
    };
    let date = match unit {
        TimeUnit::Second => array.as_primitive::<TimestampSecondType>().value_as_datetime(row),
        TimeUnit::Millisecond => array.as_primitive::<TimestampMillisecondType>().value_as_datetime(row),
        TimeUnit::Microsecond => array.as_primitive::<TimestampMicrosecondType>().value_as_datetime(row),
        TimeUnit::Nanosecond => array.as_primitive::<TimestampNanosecondType>().value_as_datetime(row),
    };
    date.map(|date| date.and_utc().timestamp())
}

/// Tells whether a cell can be displayed.
pub(crate) fn is_displayable(batch: &ArrowBatch, column: usize, row: usize) -> (shown: bool)
    requires
        column < contents(*batch).columns.len(),
        row < contents(*batch).rows,
        displayed(*batch)[column as int][row as int] is Some,
    ensures
        shown == displayable(*batch, column as int, row as int),
{
    let types = column_types(batch, column);
    if types.len() == 1 && types[0] == ValueType::Zoned {
        return match cell_instant(batch, column, row) {
            Some(seconds) => FIRST_LOCAL_INSTANT <= seconds && seconds <= LAST_LOCAL_INSTANT,
            None => true,
        };
    }
    let mut i: usize = 0;
    while i < types.len()
        invariant
            i <= types.len(),
            types@ == value_types(*batch)[column as int],
            !(types.len() == 1 && types@[0] == ValueType::Zoned),
            forall|j: int| 0 <= j < i ==> (#[trigger] types@[j]) == ValueType::Other,
        decreases types.len() - i,
    {
        if types[i] != ValueType::Other {
            assert(value_types(*batch)[column as int][i as int] != ValueType::Other);
            return false;
        }
        i += 1;
    }
    true
}

/// `array_value_to_string`: the text of a cell that is not null, or the message of the error. It
/// panics where a local time lies outside the calendar, so cells where that can be are left out.
#[verifier::external_body]
pub(crate) fn cell_text(batch: &ArrowBatch, column: usize, row: usize) -> (text: Result<String, String>)
    requires
        column < contents(*batch).columns.len(),
        row < contents(*batch).rows,
        displayed(*batch)[column as int][row as int] is Some,
        displayable(*batch, column as int, row as int),
    ensures
        match (text, displayed(*batch)[column as int][row as int]->0) {
            (Ok(text), Ok(value)) => text@ == value,
            (Err(message), Err(expected)) => message@ == expected,
            _ => false,
        },
{
    array_value_to_string(batch.0.column(column).as_ref(), row).map_err(|e| e.to_string())
}

/// The number of bytes that texts take in UTF-8.
pub open spec fn text_bytes(texts: Seq<Seq<char>>) -> nat
    decreases texts.len(),
{
    if texts.len() == 0 {
        0
    } else {
        text_bytes(texts.drop_last()) + encode_utf8(texts.last()).len()
    }
}

/// A batch of a text column and a number column without nulls.
pub open spec fn text_and_number(
    names: (Seq<char>, Seq<char>),
    field_ids: (Seq<char>, Seq<char>),
    nullable: (bool, bool),
    texts: Seq<Seq<char>>,
    numbers: Seq<i64>,
) -> BatchModel {
    BatchModel {
        names: seq![names.0, names.1],
        field_ids: seq![Some(field_ids.0), Some(field_ids.1)],
        nullable: seq![nullable.0, nullable.1],
        columns: seq![
            ColumnModel::Utf8(texts.map_values(|text: Seq<char>| Some(text))),
            ColumnModel::Int64(numbers.map_values(|number: i64| Some(number))),
        ],
        rows: texts.len(),
    }
}

/// The characters of texts.
pub open spec fn text_views(texts: Seq<String>) -> Seq<Seq<char>> {
    texts.map_values(|text: String| text@)
}

/// `RecordBatch::try_new` on a column of texts and a column of numbers, with a schema that gives
/// their names and Parquet field ids and says which may hold nulls: the batch holds just those
/// columns. It is refused only where the columns are of different lengths; what the message then
/// says is left unsaid. A text column holds its bytes under 32-bit offsets, so more bytes than that
/// are left out.
#[verifier::external_body]
pub(crate) fn text_and_number_batch(
    names: (&str, &str),
    field_ids: (&str, &str),
    nullable: (bool, bool),
    texts: Vec<String>,
    numbers: Vec<i64>,
) -> (batch: Result<ArrowBatch, String>)
    requires
        text_bytes(text_views(texts@)) <= i32::MAX,
    ensures
        match batch {
            Ok(batch) => {
                &&& texts.len() == numbers.len()
                &&& contents(batch) == text_and_number(
                    (names.0@, names.1@),
                    (field_ids.0@, field_ids.1@),
                    nullable,
                    text_views(texts@),
                    numbers@,
                )
            },
            Err(_) => texts.len() != numbers.len(),
        },
{
    let text = arrow_schema::Field::new(names.0, DataType::Utf8, nullable.0)
        .with_metadata([(PARQUET_FIELD_ID_META_KEY, field_ids.0)]);
    let number = arrow_schema::Field::new(names.1, DataType::Int64, nullable.1)
        .with_metadata([(PARQUET_FIELD_ID_META_KEY, field_ids.1)]);
    let schema = Arc::new(Schema::new(vec![text, number]));
    let (texts, numbers) = (StringArray::from(texts), Int64Array::from(numbers));
    RecordBatch::try_new(schema, vec![Arc::new(texts), Arc::new(numbers)])
        .map(ArrowBatch)
        .map_err(|e| e.to_string())
}

/// Reads a record batch.
pub fn row_batch(batch: &ArrowBatch) -> (rows: RowBatch)
    ensures
        rows@ == contents(*batch),
        rows@.valid(),
{
    let width = num_columns(batch);
    let num_rows = num_rows(batch);
    let ghost model = contents(*batch);
    let mut fields: Vec<Field> = Vec::new();
    let mut columns: Vec<Column> = Vec::new();
    let mut i: usize = 0;
    while i < width
        invariant
            i <= width,
            width == model.columns.len(),
            width == model.names.len(),
            width == model.field_ids.len(),
            width == model.nullable.len(),
            num_rows == model.rows,
            model == contents(*batch),
            fields.len() == i,
            columns.len() == i,
            forall|j: int| 0 <= j < i ==> (#[trigger] fields@[j]).name@ == model.names[j],
            forall|j: int|
                0 <= j < i ==> optional_text((#[trigger] fields@[j]).field_id) == model.field_ids[j],
            forall|j: int| 0 <= j < i ==> (#[trigger] fields@[j]).nullable == model.nullable[j],
            forall|j: int| 0 <= j < i ==> (#[trigger] columns@[j])@ == model.columns[j],
            forall|j: int| 0 <= j < i ==> (#[trigger] model.columns[j]).has_rows(model.rows),
        decreases width - i,
    {
        fields.push(
            Field {
                name: column_name(batch, i),
                field_id: column_field_id(batch, i),
                nullable: column_nullable(batch, i),
            },
        );
        let column = match column_texts(batch, i) {
            Some(texts) => Column::Utf8(texts),
            None => match column_numbers(batch, i) {
                Some(numbers) => Column::Int64(numbers),
                None => Column::Other,
            },
        };
        columns.push(column);
        i += 1;
    }
    let rows = RowBatch { fields, columns, num_rows };
    assert(rows@.names == model.names);
    assert(rows@.field_ids == model.field_ids);
    assert(rows@.nullable == model.nullable);
    assert(rows@.columns == model.columns);
    rows
}

} // verus!

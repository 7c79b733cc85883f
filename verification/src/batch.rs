//! Batches of rows as plain values: what the readers and writers of this crate look at.
use vstd::prelude::*;

verus! {

/// One column's description.
#[derive(Debug)]
pub struct Field {
    /// The column's name.
    pub name: String,
    /// The text of the column's field id, where it carries one.
    pub field_id: Option<String>,
    /// Whether the column may hold nulls.
    pub nullable: bool,
}

/// One column's values. `None` stands for a null.
#[derive(Debug)]
pub enum Column {
    /// Texts.
    Utf8(Vec<Option<String>>),
    /// Signed 64-bit numbers.
    Int64(Vec<Option<i64>>),
    /// Values of any other type; nothing in this crate reads them.
    Other,
}

/// A batch of rows: the columns' descriptions, their values and the number of rows.
#[derive(Debug)]
pub struct RowBatch {
    /// The descriptions, one per column.
    pub fields: Vec<Field>,
    /// The values, one entry per column.
    pub columns: Vec<Column>,
    /// The number of rows.
    pub num_rows: usize,
}

/// The mathematical value of a [`Column`].
pub enum ColumnModel {
    /// Texts.
    Utf8(Seq<Option<Seq<char>>>),
    /// Signed 64-bit numbers.
    Int64(Seq<Option<i64>>),
    /// Values of any other type.
    Other,
}

/// The mathematical value of a [`RowBatch`].
#[verifier::ext_equal]
pub struct BatchModel {
    /// The columns' names.
    pub names: Seq<Seq<char>>,
    /// The texts of the columns' field ids.
    pub field_ids: Seq<Option<Seq<char>>>,
    /// Which columns may hold nulls.
    pub nullable: Seq<bool>,
    /// The columns' values.
    pub columns: Seq<ColumnModel>,
    /// The number of rows.
    pub rows: nat,
}

/// The characters of an optional text.
pub open spec fn optional_text(text: Option<String>) -> Option<Seq<char>> {
    match text {
        Some(s) => Some(s@),
        None => None,
    }
}

/// The characters of each of a sequence of optional texts.
pub open spec fn optional_texts(texts: Seq<Option<String>>) -> Seq<Option<Seq<char>>> {
    texts.map_values(|t: Option<String>| optional_text(t))
}

impl View for Column {
    type V = ColumnModel;

    open spec fn view(&self) -> ColumnModel {
        match self {
            Column::Utf8(texts) => ColumnModel::Utf8(optional_texts(texts@)),
            Column::Int64(numbers) => ColumnModel::Int64(numbers@),
            Column::Other => ColumnModel::Other,
        }
    }
}

impl View for RowBatch {
    type V = BatchModel;

    open spec fn view(&self) -> BatchModel {
        BatchModel {
            names: self.fields@.map_values(|f: Field| f.name@),
            field_ids: self.fields@.map_values(|f: Field| optional_text(f.field_id)),
            nullable: self.fields@.map_values(|f: Field| f.nullable),
            columns: self.columns@.map_values(|c: Column| c@),
            rows: self.num_rows as nat,
        }
    }
}

impl ColumnModel {
    /// The column holds `rows` values.
    pub open spec fn has_rows(self, rows: nat) -> bool {
        match self {
            ColumnModel::Utf8(texts) => texts.len() == rows,
            ColumnModel::Int64(numbers) => numbers.len() == rows,
            ColumnModel::Other => true,
        }
    }
}

impl BatchModel {
    /// Every column has a description and holds one value per row.
    pub open spec fn valid(self) -> bool {
        &&& self.names.len() == self.columns.len()
        &&& self.field_ids.len() == self.columns.len()
        &&& self.nullable.len() == self.columns.len()
        &&& forall|i: int| 0 <= i < self.columns.len() ==> (#[trigger] self.columns[i]).has_rows(self.rows)
    }
}

/// Some value of the sequence is null.
pub open spec fn has_null<T>(values: Seq<Option<T>>) -> bool {
    exists|i: int| 0 <= i < values.len() && (#[trigger] values[i]) is None
}

/// Tells whether a column of texts holds a null.
pub fn any_text_null(values: &Vec<Option<String>>) -> (found: bool)
    ensures
        found == has_null(optional_texts(values@)),
{
    let ghost model = optional_texts(values@);
    let mut i: usize = 0;
    while i < values.len()
        invariant
            i <= values.len(),
            model == optional_texts(values@),
            forall|j: int| 0 <= j < i ==> (#[trigger] model[j]) is Some,
        decreases values.len() - i,
    {
        if values[i].is_none() {
            assert(model[i as int] is None);
            return true;
        }
        assert(model[i as int] is Some);
        i += 1;
    }
    false
}

/// Tells whether a column of numbers holds a null.
pub fn any_number_null(values: &Vec<Option<i64>>) -> (found: bool)
    ensures
        found == has_null(values@),
{
    let mut i: usize = 0;
    while i < values.len()
        invariant
            i <= values.len(),
            forall|j: int| 0 <= j < i ==> (#[trigger] values@[j]) is Some,
        decreases values.len() - i,
    {
        if values[i].is_none() {
            assert(values@[i as int] is None);
            return true;
        }
        i += 1;
    }
    false
}

} // verus!

//! What the delta writer guarantees, said of single cells.
use crate::arrow_batch::{
    contents, displayable, displayed, instants, value_types, ArrowBatch, ValueType,
};
use crate::delta_writer::{
    action_view, batch_identifier, cell_values, comes_to_display, identifiable, identifier_view,
    key_text, lemma_keys_do_not_collide, nul_free, projected_identifier, projects_well,
    recorded_delete, role_after, row_key, DeleteAction, DeltaRole,
};
use crate::error::{Error, ErrorKind, ErrorModel};
use crate::text::decimal;
use vstd::prelude::*;

verus! {

/// The identifier of a row has exactly one value per equality column: value `c` is what cell `c`
/// displays, or `None` just where that cell is null. Where the identifier cannot be read, some cell
/// cannot be displayed, and the first such cell is the one reported.
pub proof fn lemma_identifier_holds_every_column(batch: ArrowBatch)
    ensures
        batch_identifier(batch) matches Ok(values) ==> {
            &&& values.len() == contents(batch).columns.len()
            &&& forall|c: int|
                0 <= c < values.len() ==> match #[trigger] values[c] {
                    None => displayed(batch)[c][0] is None,
                    Some(text) => displayed(batch)[c][0] == Some(Ok::<Seq<char>, Seq<char>>(text)),
                }
        },
        batch_identifier(batch) matches Err(error) ==> exists|c: int|
            0 <= c < contents(batch).columns.len() && {
                &&& (#[trigger] displayed(batch)[c])[0] matches Some(Err(message))
                &&& error.kind == ErrorKind::DataInvalid
                &&& error.message == "Failed to stringify identifier column: "@ + message
                &&& forall|j: int|
                    0 <= j < c ==> !((#[trigger] displayed(batch)[j])[0] matches Some(Err(_)))
            },
{
    let width = contents(batch).columns.len() as int;
    lemma_cell_values(displayed(batch), width, 0);
    if batch_identifier(batch) is Ok {
        let values = batch_identifier(batch)->Ok_0;
        assert forall|c: int| 0 <= c < values.len() implies match #[trigger] values[c] {
            None => displayed(batch)[c][0] is None,
            Some(text) => displayed(batch)[c][0] == Some(Ok::<Seq<char>, Seq<char>>(text)),
        } by {
            assert(values[c - 0] == values[c]);
        }
    }
}

proof fn lemma_cell_values(
    cells: Seq<Seq<Option<Result<Seq<char>, Seq<char>>>>>,
    width: int,
    column: int,
)
    requires
        0 <= column <= width,
    ensures
        match cell_values(cells, width, column) {
            Ok(values) => {
                &&& values.len() == width - column
                &&& forall|c: int|
                    column <= c < width ==> match #[trigger] values[c - column] {
                        None => cells[c][0] is None,
                        Some(text) => cells[c][0] == Some(Ok::<Seq<char>, Seq<char>>(text)),
                    }
            },
            Err(error) => exists|c: int|
                column <= c < width && {
                    &&& (#[trigger] cells[c])[0] matches Some(Err(message))
                    &&& error.kind == ErrorKind::DataInvalid
                    &&& error.message == "Failed to stringify identifier column: "@ + message
                    &&& forall|j: int|
                        column <= j < c ==> !((#[trigger] cells[j])[0] matches Some(Err(_)))
                },
        },
    decreases width - column,
{
    if column < width {
        lemma_cell_values(cells, width, column + 1);
        match cells[column][0] {
            Some(Err(message)) => {
                assert(cells[column][0] matches Some(Err(_)));
            },
            _ => match cell_values(cells, width, column + 1) {
                Ok(rest) => {
                    let values = cell_values(cells, width, column)->Ok_0;
                    assert forall|c: int| column <= c < width implies match #[trigger] values[c
                        - column] {
                        None => cells[c][0] is None,
                        Some(text) => cells[c][0] == Some(Ok::<Seq<char>, Seq<char>>(text)),
                    } by {
                        if c > column {
                            assert(values[c - column] == rest[c - (column + 1)]);
                        }
                    }
                },
                Err(error) => {
                    let c = choose|c: int|
                        column + 1 <= c < width && {
                            &&& (#[trigger] cells[c])[0] matches Some(Err(message))
                            &&& error.kind == ErrorKind::DataInvalid
                            &&& error.message == "Failed to stringify identifier column: "@ + message
                            &&& forall|j: int|
                                column + 1 <= j < c ==> !((#[trigger] cells[j])[0] matches Some(
                                    Err(_),
                                ))
                        };
                    assert(cells[c][0] matches Some(Err(_)));
                    assert forall|j: int| column <= j < c implies !((#[trigger] cells[j])[0] matches Some(
                        Err(_),
                    )) by {}
                },
            },
        }
    }
}

/// Two rows that differ in any equality column have different keys, as long as no value contains a
/// NUL; rows that display the same in every column have the same key.
pub proof fn lemma_rows_that_differ_have_different_keys(a: ArrowBatch, b: ArrowBatch)
    requires
        batch_identifier(a) is Ok,
        batch_identifier(b) is Ok,
        nul_free(batch_identifier(a)->Ok_0),
        nul_free(batch_identifier(b)->Ok_0),
        contents(a).columns.len() == contents(b).columns.len(),
    ensures
        key_text(batch_identifier(a)->Ok_0) == key_text(batch_identifier(b)->Ok_0) <==> forall|c: int|
            0 <= c < contents(a).columns.len() ==> (#[trigger] displayed(a)[c])[0] == displayed(
                b,
            )[c][0],
{
    let x = batch_identifier(a)->Ok_0;
    let y = batch_identifier(b)->Ok_0;
    lemma_identifier_holds_every_column(a);
    lemma_identifier_holds_every_column(b);
    lemma_keys_do_not_collide(x, y);
    if x == y {
        assert forall|c: int| 0 <= c < contents(a).columns.len() implies (#[trigger] displayed(
            a,
        )[c])[0] == displayed(b)[c][0] by {
            assert(x[c] == y[c]);
        }
    }
    if forall|c: int|
        0 <= c < contents(a).columns.len() ==> (#[trigger] displayed(a)[c])[0] == displayed(b)[c][0] {
        assert forall|c: int| 0 <= c < x.len() implies x[c] == y[c] by {
            assert(displayed(a)[c][0] == displayed(b)[c][0]);
        }
        assert(x == y);
    }
}

/// A key is made column by column: a value stands between two NULs, and a null is an `N` before one.
pub proof fn lemma_keys_are_made_column_by_column(
    first: Seq<Option<Seq<char>>>,
    second: Seq<Option<Seq<char>>>,
    text: Seq<char>,
)
    ensures
        key_text(first + second) == key_text(first) + key_text(second),
        key_text(seq![Some(text)]) == seq!['\0'] + text + seq!['\0'],
        key_text(seq![None::<Seq<char>>]) == seq!['N', '\0'],
    decreases second.len(),
{
    let value = seq![Some(text)];
    let null = seq![None::<Seq<char>>];
    assert(key_text(value.drop_last()).len() == 0);
    assert(key_text(value) == seq!['\0'] + text + seq!['\0']);
    assert(key_text(null.drop_last()).len() == 0);
    assert(key_text(null) == seq!['N', '\0']);
    if second.len() == 0 {
        assert(first + second == first);
        assert(key_text(first) + key_text(second) == key_text(first));
    } else {
        let rest = second.drop_last();
        lemma_keys_are_made_column_by_column(first, rest, text);
        assert((first + second).drop_last() == first + rest);
        assert((first + second).last() == second.last());
        assert(key_text(first + second) == key_text(first) + key_text(second));
    }
}

/// An identifier is taken value by value, and it is that of the projected row where the row could
/// be projected, and else the error.
pub proof fn lemma_identifiers_are_taken_as_they_are(
    identifier: Result<Vec<Option<String>>, Error>,
    projected: Result<ArrowBatch, Error>,
)
    ensures
        match identifier {
            Ok(values) => {
                &&& identifier_view(identifier) matches Ok(model)
                &&& model.len() == values.len()
                &&& forall|c: int|
                    0 <= c < values.len() ==> match values@[c] {
                        Some(text) => #[trigger] model[c] == Some(text@),
                        None => model[c] is None,
                    }
            },
            Err(error) => identifier_view(identifier) == Err::<Seq<Option<Seq<char>>>, ErrorModel>(
                error@,
            ),
        },
        projected matches Ok(batch) ==> projected_identifier(projected) == batch_identifier(batch),
        projected matches Err(error) ==> projected_identifier(projected) == Err::<
            Seq<Option<Seq<char>>>,
            ErrorModel,
        >(error@),
        projected matches Ok(batch) ==> (projects_well(projected) <==> identifiable(batch)),
        projected is Err ==> projects_well(projected),
{
}

/// A row is taken just where the writer is open, the batch is a single row and the row has an
/// identifier; the key is then that of the identifier, and the identifiers of two rows that are
/// taken are the same just where their keys are, as long as no value contains a NUL.
pub proof fn lemma_taken_rows(
    closed: bool,
    method: Seq<char>,
    rows: nat,
    identifier: Result<Seq<Option<Seq<char>>>, ErrorModel>,
)
    ensures
        row_key(closed, method, rows, identifier) is Ok <==> !closed && rows == 1 && identifier is Ok,
        row_key(closed, method, rows, identifier) matches Ok(key) ==> key == key_text(identifier->Ok_0),
        row_key(closed, method, rows, identifier) matches Ok(key) ==> forall|
            other: Seq<Option<Seq<char>>>,
        |
            nul_free(other) && nul_free(identifier->Ok_0) ==> (key == #[trigger] key_text(other)
                <==> other == identifier->Ok_0),
        closed ==> row_key(closed, method, rows, identifier)->Err_0.kind == ErrorKind::Unexpected
            && row_key(closed, method, rows, identifier)->Err_0.message
            == "Delta writer has been closed."@,
        !closed && rows != 1 ==> row_key(closed, method, rows, identifier)->Err_0.kind
            == ErrorKind::DataInvalid && row_key(closed, method, rows, identifier)->Err_0.message
            == "DeltaWriter::"@ + method + " expects exactly one row per call, got "@ + decimal(
            rows as int,
        ),
        !closed && rows == 1 && identifier is Err ==> row_key(closed, method, rows, identifier)->Err_0
            == identifier->Err_0,
{
    if let Ok(values) = identifier {
        assert forall|other: Seq<Option<Seq<char>>>|
            nul_free(other) && nul_free(values) implies (key_text(values) == #[trigger] key_text(other)
            <==> other == values) by {
            lemma_keys_do_not_collide(values, other);
        }
    }
}

/// A delete is recorded by the place that the index holds for the key, and by an equality delete
/// just where the index holds none.
pub proof fn lemma_recorded_deletes(
    index: Map<Seq<char>, (Seq<char>, i64)>,
    key: Seq<char>,
    place: (Seq<char>, i64),
    other: Seq<char>,
    action: DeleteAction,
)
    ensures
        recorded_delete(index.insert(key, place), key) == Some(place),
        recorded_delete(index.remove(key), key) is None,
        other != key ==> recorded_delete(index.insert(key, place), other) == recorded_delete(index, other),
        other != key ==> recorded_delete(index.remove(key), other) == recorded_delete(index, other),
        recorded_delete(Map::empty(), key) is None,
        action_view(action) is None <==> action is Equality,
        action matches DeleteAction::Position { file_path, pos } ==> action_view(action) == Some(
            (file_path@, pos),
        ),
{
}

/// The data writer comes first, then the position delete writer, then the equality delete writer.
pub proof fn lemma_order_of_roles()
    ensures
        role_after(None) == Some(DeltaRole::Data),
        role_after(Some(DeltaRole::Data)) == Some(DeltaRole::PositionDeletes),
        role_after(Some(DeltaRole::PositionDeletes)) == Some(DeltaRole::EqualityDeletes),
        role_after(Some(DeltaRole::EqualityDeletes)) is None,
{
}

/// The identifier of a row can be read wherever the batch holds a row and each of its cells is null,
/// or has to do with no time zone, or is a timestamp that lies inside the calendar by a day. A batch
/// without columns needs no row.
pub proof fn lemma_rows_can_be_identified(batch: ArrowBatch)
    requires
        contents(batch).rows > 0 || contents(batch).columns.len() == 0,
        forall|c: int|
            0 <= c < contents(batch).columns.len() ==> {
                ||| displayed(batch)[c][0] is None
                ||| forall|t: int|
                    0 <= t < value_types(batch)[c].len() ==> (#[trigger] value_types(batch)[c][t])
                        == ValueType::Other
                ||| {
                    &&& value_types(batch)[c] == seq![ValueType::Zoned]
                    &&& (#[trigger] instants(batch)[c])[0] matches Some(seconds) ==> -8334601142400
                        <= seconds <= 8210266790399
                }
            },
    ensures
        identifiable(batch),
{
    assert forall|i: int|
        0 <= i < contents(batch).columns.len() && #[trigger] comes_to_display(batch, i) implies displayable(
        batch,
        i,
        0,
    ) by {
        let dates = instants(batch)[i];
        if value_types(batch)[i] == seq![ValueType::Zoned] {
            assert(value_types(batch)[i][0] == ValueType::Zoned);
        }
    }
}

} // verus!

//! This module provides [`DeltaWriter`], which composes a data writer, a position delete writer,
//! and an equality delete writer to support row-level `INSERT`/`DELETE`/`UPDATE` within a single
//! write task.
use crate::arrow_batch::{
    cell_is_null, cell_text, contents, displayable, displayed, is_displayable, num_columns,
    num_rows, text_bytes, ArrowBatch,
};
use crate::batch::optional_texts;
use crate::error::{invalid, unexpected, Error, ErrorKind, ErrorModel};
use crate::metadata::DataFile;
use crate::position_delete_writer::{
    delete_batch, position_delete_batch, row_paths, row_view, row_views,
};
use crate::text::{decimal, unsigned_text};
use vstd::hash_map::StringHashMap;
use vstd::pervasive::unreached;
use vstd::prelude::*;
use vstd::string::*;

verus! {

/// Builder for [`DeltaWriter`].
///
/// Composes three independently configured writer builders: one for inserted rows (written in
/// full), one for position deletes, and one for equality deletes. Any writer builder can be used
/// for each role, as long as the data writer can tell where the row that it wrote last has landed.
#[derive(Debug)]
pub struct DeltaWriterBuilder<D, PD, ED, C> {
    data_writer_builder: D,
    position_delete_writer_builder: PD,
    equality_delete_writer_builder: ED,
    equality_config: C,
}

impl<D, PD, ED, C> DeltaWriterBuilder<D, PD, ED, C> {
    /// The three builders, and the config of the equality columns.
    pub closed spec fn parts(&self) -> (D, PD, ED, C) {
        (
            self.data_writer_builder,
            self.position_delete_writer_builder,
            self.equality_delete_writer_builder,
            self.equality_config,
        )
    }

    /// Creates a new `DeltaWriterBuilder`.
    ///
    /// `equality_config` determines which columns identify a row for the purposes of both
    /// equality deletes and the in-task insert index; it must be built from the same schema and
    /// equality ids used to configure `equality_delete_writer_builder`'s delete schema.
    pub fn new(
        data_writer_builder: D,
        position_delete_writer_builder: PD,
        equality_delete_writer_builder: ED,
        equality_config: C,
    ) -> (builder: Self)
        ensures
            builder.parts() == (
                data_writer_builder,
                position_delete_writer_builder,
                equality_delete_writer_builder,
                equality_config,
            ),
    {
        DeltaWriterBuilder {
            data_writer_builder,
            position_delete_writer_builder,
            equality_delete_writer_builder,
            equality_config,
        }
    }

    /// The builder of the data writer.
    pub fn data_writer_builder(&self) -> (builder: &D)
        ensures
            *builder == self.parts().0,
    {
        &self.data_writer_builder
    }

    /// The builder of the position delete writer.
    pub fn position_delete_writer_builder(&self) -> (builder: &PD)
        ensures
            *builder == self.parts().1,
    {
        &self.position_delete_writer_builder
    }

    /// The builder of the equality delete writer.
    pub fn equality_delete_writer_builder(&self) -> (builder: &ED)
        ensures
            *builder == self.parts().2,
    {
        &self.equality_delete_writer_builder
    }

    /// Builds a `DeltaWriter` from the writers that the three builders gave for a partition.
    pub fn build<DW, PW, EW>(
        &self,
        data_writer: DW,
        position_delete_writer: PW,
        equality_delete_writer: EW,
    ) -> (writer: DeltaWriter<DW, PW, EW, C>) where C: Clone
        ensures
            writer.writers() == (data_writer, position_delete_writer, equality_delete_writer),
            cloned(self.parts().3, writer.spec_equality_config()),
            writer.index() == Map::<Seq<char>, (Seq<char>, i64)>::empty(),
            !writer.is_closed(),
    {
        let writer = DeltaWriter {
            data_writer,
            position_delete_writer,
            equality_delete_writer,
            equality_config: self.equality_config.clone(),
            insert_index: StringHashMap::new(),
            closed: false,
        };
        assert(writer.index() == Map::<Seq<char>, (Seq<char>, i64)>::empty());
        writer
    }
}

/// One of the three writers of a delta writer.
#[derive(Debug, Clone, Copy, PartialEq, Eq, Structural)]
pub enum DeltaRole {
    /// The data writer.
    Data,
    /// The position delete writer.
    PositionDeletes,
    /// The equality delete writer.
    EqualityDeletes,
}

/// The three writers in the order in which they are built and closed.
pub open spec fn delta_roles() -> Seq<DeltaRole> {
    seq![DeltaRole::Data, DeltaRole::PositionDeletes, DeltaRole::EqualityDeletes]
}

/// The writer that comes after another one, and the first one after none.
pub open spec fn role_after(last: Option<DeltaRole>) -> Option<DeltaRole> {
    match last {
        None => Some(DeltaRole::Data),
        Some(DeltaRole::Data) => Some(DeltaRole::PositionDeletes),
        Some(DeltaRole::PositionDeletes) => Some(DeltaRole::EqualityDeletes),
        Some(DeltaRole::EqualityDeletes) => None,
    }
}

/// Tells which writer is built or closed next. `last` is the writer before, `outcome` is how building
/// or closing it went; before the first one they are `None` and `Ok`. The first error ends it.
pub fn next_role(last: Option<DeltaRole>, outcome: Result<(), Error>) -> (result: Result<
    Option<DeltaRole>,
    Error,
>)
    ensures
        match outcome {
            Ok(()) => result matches Ok(next) && next == role_after(last),
            Err(error) => result == Err::<Option<DeltaRole>, Error>(error),
        },
{
    match outcome {
        Ok(()) => Ok(
            match last {
                None => Some(DeltaRole::Data),
                Some(DeltaRole::Data) => Some(DeltaRole::PositionDeletes),
                Some(DeltaRole::PositionDeletes) => Some(DeltaRole::EqualityDeletes),
                Some(DeltaRole::EqualityDeletes) => None,
            },
        ),
        Err(error) => Err(error),
    }
}

/// The writers that come after `last`, given how building or closing each of them went so far: none
/// after one that failed.
pub open spec fn roles_taken(last: Option<DeltaRole>, outcomes: Seq<Result<(), ErrorModel>>) -> Seq<
    DeltaRole,
>
    decreases outcomes.len(),
{
    match role_after(last) {
        None => Seq::empty(),
        Some(next) => if outcomes.len() == 0 || outcomes[0] is Err {
            seq![next]
        } else {
            seq![next] + roles_taken(Some(next), outcomes.drop_first())
        },
    }
}

/// The data writer, the position delete writer and the equality delete writer are built and closed
/// in that order: where number `failed` is the first of them that fails, none after it is.
pub proof fn lemma_roles_stop_at_the_first_failure(outcomes: Seq<Result<(), ErrorModel>>, failed: int)
    requires
        0 <= failed <= outcomes.len(),
        forall|i: int| 0 <= i < failed ==> (#[trigger] outcomes[i]) is Ok,
        failed < outcomes.len() ==> outcomes[failed] is Err,
    ensures
        roles_taken(None, outcomes) == (if failed < 3 {
            delta_roles().take(failed + 1)
        } else {
            delta_roles()
        }),
{
    let second = outcomes.drop_first();
    let third = second.drop_first();
    reveal_with_fuel(roles_taken, 4);
    if failed > 0 {
        assert(outcomes[0] is Ok);
    }
    if failed > 1 {
        assert(outcomes[1] is Ok);
        assert(second[0] == outcomes[1]);
    }
    if failed > 2 {
        assert(outcomes[2] is Ok);
        assert(third[0] == outcomes[2]);
    }
    if failed == 1 && outcomes.len() > 1 {
        assert(second[0] == outcomes[1]);
    }
    if failed == 2 && outcomes.len() > 2 {
        assert(third[0] == outcomes[2]);
    }
}

/// Writer supporting row-level `insert`/`delete`/`update` within one write task.
///
/// A row deleted after being inserted through the *same* `DeltaWriter` instance is recorded as a
/// position delete against the file and offset it was just written to, rather than an equality
/// delete; this avoids emitting equality deletes for insert/delete pairs that never leave the
/// task. Deletes for rows not inserted through it before fall back to equality deletes.
///
/// `insert`, `delete`, and `update` each take exactly one row per call: the file and the position
/// of an inserted row come from the underlying writer's state immediately after writing it, which
/// is only well-defined one row at a time.
pub struct DeltaWriter<DW, PW, EW, C> {
    data_writer: DW,
    position_delete_writer: PW,
    equality_delete_writer: EW,
    equality_config: C,
    insert_index: StringHashMap<(String, i64)>,
    closed: bool,
}

/// A row that is to be handed to the data writer, by its identifier key.
#[derive(Debug)]
pub struct PendingInsert {
    key: String,
}

impl PendingInsert {
    /// The identifier key of the row.
    pub closed spec fn key(&self) -> Seq<char> {
        self.key@
    }
}

/// How a delete is to be recorded.
#[derive(Debug)]
pub enum DeleteAction {
    /// By a position delete of the row that was inserted before.
    Position {
        /// The data file that the row was written to.
        file_path: String,
        /// The position of the row in the data file.
        pos: i64,
    },
    /// By an equality delete.
    Equality,
}

/// The mathematical value of a [`DeleteAction`]: the row to delete by position, or `None` for an
/// equality delete.
pub open spec fn action_view(action: DeleteAction) -> Option<(Seq<char>, i64)> {
    match action {
        DeleteAction::Position { file_path, pos } => Some((file_path@, pos)),
        DeleteAction::Equality => None,
    }
}

/// The error for a writer that was closed before.
pub open spec fn delta_writer_closed() -> ErrorModel {
    unexpected("Delta writer has been closed."@)
}

/// The error for a batch of more or less than one row.
pub open spec fn not_a_single_row(method: Seq<char>, rows: nat) -> ErrorModel {
    invalid(
        "DeltaWriter::"@ + method + " expects exactly one row per call, got "@ + decimal(rows as int),
    )
}

/// The part of an identifier key that stands for one column.
pub open spec fn column_key(value: Option<Seq<char>>) -> Seq<char> {
    match value {
        Some(text) => seq!['\0'] + text + seq!['\0'],
        None => seq!['N', '\0'],
    }
}

/// The identifier key of a row, from the values of its equality columns.
pub open spec fn key_text(values: Seq<Option<Seq<char>>>) -> Seq<char>
    decreases values.len(),
{
    if values.len() == 0 {
        Seq::empty()
    } else {
        key_text(values.drop_last()) + column_key(values.last())
    }
}

/// No value contains a NUL character.
pub open spec fn nul_free(values: Seq<Option<Seq<char>>>) -> bool {
    forall|i: int|
        0 <= i < values.len() ==> (#[trigger] values[i] matches Some(text) ==> !text.contains('\0'))
}

/// The values of a row's cells, from `column` on, or the error for the first one that cannot be
/// displayed.
pub open spec fn cell_values(
    cells: Seq<Seq<Option<Result<Seq<char>, Seq<char>>>>>,
    width: int,
    column: int,
) -> Result<Seq<Option<Seq<char>>>, ErrorModel>
    decreases width - column,
{
    if column >= width {
        Ok(Seq::empty())
    } else {
        match cells[column][0] {
            Some(Err(message)) => Err(
                invalid("Failed to stringify identifier column: "@ + message),
            ),
            Some(Ok(text)) => match cell_values(cells, width, column + 1) {
                Ok(rest) => Ok(seq![Some(text)] + rest),
                Err(error) => Err(error),
            },
            None => match cell_values(cells, width, column + 1) {
                Ok(rest) => Ok(seq![None] + rest),
                Err(error) => Err(error),
            },
        }
    }
}

/// The identifier of the first row of a batch that holds the equality columns.
pub open spec fn batch_identifier(batch: ArrowBatch) -> Result<Seq<Option<Seq<char>>>, ErrorModel> {
    cell_values(displayed(batch), contents(batch).columns.len() as int, 0)
}

/// The identifier of a row, given the outcome of projecting the row to its equality columns.
pub open spec fn projected_identifier(projected: Result<ArrowBatch, Error>) -> Result<
    Seq<Option<Seq<char>>>,
    ErrorModel,
> {
    match projected {
        Ok(batch) => batch_identifier(batch),
        Err(error) => Err(error@),
    }
}

/// The mathematical value of an identifier.
pub open spec fn identifier_view(identifier: Result<Vec<Option<String>>, Error>) -> Result<
    Seq<Option<Seq<char>>>,
    ErrorModel,
> {
    match identifier {
        Ok(values) => Ok(optional_texts(values@)),
        Err(error) => Err(error@),
    }
}

/// The cell at `column` comes to be displayed: it is not null, and no cell before it is refused.
pub open spec fn comes_to_display(batch: ArrowBatch, column: int) -> bool {
    &&& displayed(batch)[column][0] is Some
    &&& forall|j: int| 0 <= j < column ==> !((#[trigger] displayed(batch)[j])[0] matches Some(Err(_)))
}

/// The identifier of the first row of a batch can be read: the batch holds a row, unless it has no
/// columns at all, and every cell that comes to be displayed can be.
pub open spec fn identifiable(batch: ArrowBatch) -> bool {
    contents(batch).columns.len() > 0 ==> {
        &&& contents(batch).rows > 0
        &&& forall|i: int|
            0 <= i < contents(batch).columns.len() && #[trigger] comes_to_display(batch, i)
                ==> displayable(batch, i, 0)
    }
}

/// Where a row was projected, its identifier can be read.
pub open spec fn projects_well(projected: Result<ArrowBatch, Error>) -> bool {
    projected matches Ok(batch) ==> identifiable(batch)
}

/// The key of a row that may be inserted or deleted, or why it may not: the writer was closed, the
/// batch is not a single row, or the row has no identifier.
pub open spec fn row_key(
    closed: bool,
    method: Seq<char>,
    rows: nat,
    identifier: Result<Seq<Option<Seq<char>>>, ErrorModel>,
) -> Result<Seq<char>, ErrorModel> {
    if closed {
        Err(delta_writer_closed())
    } else if rows != 1 {
        Err(not_a_single_row(method, rows))
    } else {
        match identifier {
            Ok(values) => Ok(key_text(values)),
            Err(error) => Err(error),
        }
    }
}

/// How the delete of a key is recorded: by position where the key is in the index.
pub open spec fn recorded_delete(index: Map<Seq<char>, (Seq<char>, i64)>, key: Seq<char>) -> Option<
    (Seq<char>, i64),
> {
    if index.contains_key(key) {
        Some(index[key])
    } else {
        None
    }
}

/// Builds the identifier key of a row from the values of its equality columns. A value stands
/// between two NULs and a null is written without a leading one, so that no combination of
/// identifier values can collide with a different combination, as long as no value itself contains
/// a NUL.
pub fn identifier_key(values: &Vec<Option<String>>) -> (key: String)
    ensures
        key@ == key_text(optional_texts(values@)),
{
    proof {
        reveal_strlit("");
        reveal_strlit("\u{0}");
        reveal_strlit("N\u{0}");
    }
    let ghost model = optional_texts(values@);
    let mut key = "".to_owned();
    assert(key@ == key_text(model.take(0)));
    let mut i: usize = 0;
    while i < values.len()
        invariant
            i <= values.len(),
            model == optional_texts(values@),
            key@ == key_text(model.take(i as int)),
            "\u{0}"@ == seq!['\0'],
            "N\u{0}"@ == seq!['N', '\0'],
        decreases values.len() - i,
    {
        assert(model.take(i + 1).drop_last() == model.take(i as int));
        let ghost before = key@;
        match &values[i] {
            Some(text) => {
                key.append("\u{0}");
                key.append(text.as_str());
                key.append("\u{0}");
                assert(key@ == before + column_key(Some(text@)));
            },
            None => {
                key.append("N\u{0}");
            },
        }
        i += 1;
    }
    assert(model.take(i as int) == model);
    key
}

/// Reads the identifier of the first row of a batch that holds the equality columns.
pub fn identifier_values(projected: &ArrowBatch) -> (identifier: Result<Vec<Option<String>>, Error>)
    requires
        identifiable(*projected),
    ensures
        identifier_view(identifier) == batch_identifier(*projected),
{
    match try_identifier_values(projected) {
        Some(identifier) => identifier,
        None => unreached(),
    }
}

/// Tells whether the identifier of the first row of a batch can be read.
pub fn is_identifiable(projected: &ArrowBatch) -> (found: bool)
    ensures
        found == identifiable(*projected),
{
    try_identifier_values(projected).is_some()
}

/// Does what [`identifier_values`] does, or tells by `None` that the batch holds no row, or that a
/// cell lies so close to an end of the calendar that its local time may not be displayed.
pub fn try_identifier_values(projected: &ArrowBatch) -> (identifier: Option<
    Result<Vec<Option<String>>, Error>,
>)
    ensures
        identifier is Some <==> identifiable(*projected),
        identifier matches Some(identifier) ==> identifier_view(identifier) == batch_identifier(
            *projected,
        ),
{
    let width = num_columns(projected);
    if width > 0 && num_rows(projected) == 0 {
        return None;
    }
    let ghost cells = displayed(*projected);
    let mut values: Vec<Option<String>> = Vec::new();
    let mut i: usize = 0;
    while i < width
        invariant
            i <= width,
            width == contents(*projected).columns.len(),
            width > 0 ==> contents(*projected).rows > 0,
            cells == displayed(*projected),
            forall|j: int| 0 <= j < i ==> !((#[trigger] cells[j])[0] matches Some(Err(_))),
            forall|j: int|
                0 <= j < i && #[trigger] comes_to_display(*projected, j) ==> displayable(
                    *projected,
                    j,
                    0,
                ),
            match cell_values(cells, width as int, i as int) {
                Ok(rest) => batch_identifier(*projected) == Ok::<Seq<Option<Seq<char>>>, ErrorModel>(
                    optional_texts(values@) + rest,
                ),
                Err(error) => batch_identifier(*projected) == Err::<Seq<Option<Seq<char>>>, ErrorModel>(
                    error,
                ),
            },
        decreases width - i,
    {
        let ghost before = optional_texts(values@);
        let ghost rest = cell_values(cells, width as int, i + 1);
        if cell_is_null(projected, i, 0) {
            values.push(None);
            proof {
                assert(optional_texts(values@) == before.push(None));
                if let Ok(rest) = rest {
                    assert(before.push(None) + rest == before + (seq![None] + rest));
                }
            }
        } else {
            assert(comes_to_display(*projected, i as int));
            if !is_displayable(projected, i, 0) {
                return None;
            }
            match cell_text(projected, i, 0) {
                Ok(text) => {
                    let ghost value = text@;
                    values.push(Some(text));
                    proof {
                        assert(optional_texts(values@) == before.push(Some(value)));
                        if let Ok(rest) = rest {
                            assert(before.push(Some(value)) + rest == before + (seq![Some(value)] + rest));
                        }
                    }
                },
                Err(message) => {
                    proof {
                        assert(cells[i as int][0] matches Some(Err(_)));
                        assert forall|j: int|
                            0 <= j < width && #[trigger] comes_to_display(*projected, j) implies
                            displayable(*projected, j, 0) by {
                            if j > i {
                                assert(!(displayed(*projected)[i as int][0] matches Some(Err(_))));
                            }
                        }
                    }
                    return Some(
                        Err(
                            Error::new(
                                ErrorKind::DataInvalid,
                                "Failed to stringify identifier column: ".to_owned().concat(
                                    message.as_str(),
                                ),
                            ),
                        ),
                    );
                },
            }
        }
        i += 1;
    }
    assert(optional_texts(values@) + Seq::<Option<Seq<char>>>::empty() == optional_texts(values@));
    Some(Ok(values))
}

impl<DW, PW, EW, C> DeltaWriter<DW, PW, EW, C> {
    /// The data writer, the position delete writer and the equality delete writer.
    pub closed spec fn writers(&self) -> (DW, PW, EW) {
        (self.data_writer, self.position_delete_writer, self.equality_delete_writer)
    }

    /// The config of the equality columns.
    pub closed spec fn spec_equality_config(&self) -> C {
        self.equality_config
    }

    /// The place of every row inserted so far that has not since been deleted, by its
    /// identifier key.
    pub closed spec fn index(&self) -> Map<Seq<char>, (Seq<char>, i64)> {
        self.insert_index@.map_values(|place: (String, i64)| row_view(place))
    }

    /// The writer was closed.
    pub closed spec fn is_closed(&self) -> bool {
        self.closed
    }

    /// The config of the equality columns.
    pub fn equality_config(&self) -> (equality_config: &C)
        ensures
            *equality_config == self.spec_equality_config(),
    {
        &self.equality_config
    }

    /// The data writer.
    pub fn data_writer_mut(&mut self) -> (writer: &mut DW)
        ensures
            *writer == old(self).writers().0,
            final(self).writers() == (*final(writer), old(self).writers().1, old(self).writers().2),
            final(self).spec_equality_config() == old(self).spec_equality_config(),
            final(self).index() == old(self).index(),
            final(self).is_closed() == old(self).is_closed(),
    {
        &mut self.data_writer
    }

    /// The position delete writer.
    pub fn position_delete_writer_mut(&mut self) -> (writer: &mut PW)
        ensures
            *writer == old(self).writers().1,
            final(self).writers() == (old(self).writers().0, *final(writer), old(self).writers().2),
            final(self).spec_equality_config() == old(self).spec_equality_config(),
            final(self).index() == old(self).index(),
            final(self).is_closed() == old(self).is_closed(),
    {
        &mut self.position_delete_writer
    }

    /// The equality delete writer.
    pub fn equality_delete_writer_mut(&mut self) -> (writer: &mut EW)
        ensures
            *writer == old(self).writers().2,
            final(self).writers() == (old(self).writers().0, old(self).writers().1, *final(writer)),
            final(self).spec_equality_config() == old(self).spec_equality_config(),
            final(self).index() == old(self).index(),
            final(self).is_closed() == old(self).is_closed(),
    {
        &mut self.equality_delete_writer
    }

    /// Refuses where the writer was closed before.
    pub fn ensure_open(&self) -> (result: Result<(), Error>)
        ensures
            match result {
                Ok(()) => !self.is_closed(),
                Err(error) => self.is_closed() && error@ == delta_writer_closed(),
            },
    {
        if self.closed {
            return Err(Error::new(ErrorKind::Unexpected, "Delta writer has been closed.".to_owned()));
        }
        Ok(())
    }

    /// Refuses a batch that is not a single row.
    pub fn ensure_single_row(num_rows: usize, method: &str) -> (result: Result<(), Error>)
        ensures
            match result {
                Ok(()) => num_rows == 1,
                Err(error) => num_rows != 1 && error@ == not_a_single_row(method@, num_rows as nat),
            },
    {
        if num_rows != 1 {
            return Err(
                Error::new(
                    ErrorKind::DataInvalid,
                    "DeltaWriter::".to_owned().concat(method).concat(
                        " expects exactly one row per call, got ",
                    ).concat(unsigned_text(num_rows as u64).as_str()),
                ),
            );
        }
        Ok(())
    }

    /// The key of a row that `method` may take.
    fn accepted_key(
        &self,
        method: &str,
        num_rows: usize,
        identifier: Result<Vec<Option<String>>, Error>,
    ) -> (result: Result<String, Error>)
        ensures
            match (
                result,
                row_key(self.is_closed(), method@, num_rows as nat, identifier_view(identifier)),
            ) {
                (Ok(key), Ok(expected)) => key@ == expected,
                (Err(error), Err(expected)) => error@ == expected,
                _ => false,
            },
    {
        match self.ensure_open() {
            Ok(()) => {},
            Err(error) => {
                return Err(error);
            },
        }
        match Self::ensure_single_row(num_rows, method) {
            Ok(()) => {},
            Err(error) => {
                return Err(error);
            },
        }
        match identifier {
            Ok(values) => Ok(identifier_key(&values)),
            Err(error) => Err(error),
        }
    }

    /// The identifier of a row, where the row is looked at at all.
    fn looked_up_identifier(&self, rows: usize, projected: Result<ArrowBatch, Error>) -> (identifier:
        Result<Vec<Option<String>>, Error>)
        requires
            !self.is_closed() && rows == 1 ==> projects_well(projected),
        ensures
            !self.is_closed() && rows == 1 ==> identifier_view(identifier) == projected_identifier(
                projected,
            ),
    {
        if self.closed || rows != 1 {
            return Ok(Vec::new());
        }
        match projected {
            Ok(batch) => identifier_values(&batch),
            Err(error) => Err(error),
        }
    }

    /// Accepts one row for insertion, given the number of rows in its batch and its identifier. The
    /// row is then to be handed to the data writer, and the outcome to
    /// [`record_insert`][Self::record_insert].
    pub fn insert_row(&self, num_rows: usize, identifier: Result<Vec<Option<String>>, Error>) -> (result:
        Result<PendingInsert, Error>)
        ensures
            match (
                result,
                row_key(self.is_closed(), "insert"@, num_rows as nat, identifier_view(identifier)),
            ) {
                (Ok(pending), Ok(key)) => pending.key() == key,
                (Err(error), Err(expected)) => error@ == expected,
                _ => false,
            },
    {
        match self.accepted_key("insert", num_rows, identifier) {
            Ok(key) => Ok(PendingInsert { key }),
            Err(error) => Err(error),
        }
    }

    /// Accepts one row for insertion, shaped like the table's full original schema. `projected` is
    /// the outcome of projecting the row to the equality columns.
    pub fn insert(&self, row: &ArrowBatch, projected: Result<ArrowBatch, Error>) -> (result: Result<
        PendingInsert,
        Error,
    >)
        requires
            !self.is_closed() && contents(*row).rows == 1 ==> projects_well(projected),
        ensures
            match (
                result,
                row_key(
                    self.is_closed(),
                    "insert"@,
                    contents(*row).rows,
                    projected_identifier(projected),
                ),
            ) {
                (Ok(pending), Ok(key)) => pending.key() == key,
                (Err(error), Err(expected)) => error@ == expected,
                _ => false,
            },
    {
        let rows = num_rows(row);
        let identifier = self.looked_up_identifier(rows, projected);
        self.insert_row(rows, identifier)
    }

    /// Takes the outcome of handing a row to the data writer, and where the data writer stands
    /// immediately after that: the row just landed in whichever file and at whichever offset the
    /// writer's state now reflects, even if the write triggered a roll to a new file.
    pub fn record_insert(
        &mut self,
        pending: PendingInsert,
        written: Result<(), Error>,
        current_row_num: usize,
        current_file_path: String,
    ) -> (result: Result<(), Error>)
        requires
            current_row_num as i64 > i64::MIN,
        ensures
            match written {
                Ok(()) => result is Ok,
                Err(error) => result == Err::<(), Error>(error),
            },
            final(self).index() == (if written is Ok {
                old(self).index().insert(
                    pending.key(),
                    (current_file_path@, (current_row_num as i64 - 1) as i64),
                )
            } else {
                old(self).index()
            }),
            final(self).is_closed() == old(self).is_closed(),
            final(self).writers() == old(self).writers(),
            final(self).spec_equality_config() == old(self).spec_equality_config(),
    {
        match written {
            Ok(()) => {
                let pos = current_row_num as i64 - 1;
                self.insert_index.insert(pending.key, (current_file_path, pos));
                assert(self.index() == old(self).index().insert(pending.key(), (current_file_path@, pos)));
                Ok(())
            },
            Err(error) => Err(error),
        }
    }

    /// Deletes one row, given the number of rows in its batch and its identifier. Tells how the
    /// delete is to be recorded: by a position delete of the row that was inserted before, which
    /// then leaves the index, or else by an equality delete.
    pub fn delete_row(&mut self, num_rows: usize, identifier: Result<Vec<Option<String>>, Error>) -> (result:
        Result<DeleteAction, Error>)
        ensures
            match (
                result,
                row_key(old(self).is_closed(), "delete"@, num_rows as nat, identifier_view(identifier)),
            ) {
                (Ok(action), Ok(key)) => {
                    &&& action_view(action) == recorded_delete(old(self).index(), key)
                    &&& final(self).index() == old(self).index().remove(key)
                },
                (Err(error), Err(expected)) => error@ == expected && final(self).index() == old(
                    self,
                ).index(),
                _ => false,
            },
            final(self).is_closed() == old(self).is_closed(),
            final(self).writers() == old(self).writers(),
            final(self).spec_equality_config() == old(self).spec_equality_config(),
    {
        match self.accepted_key("delete", num_rows, identifier) {
            Ok(key) => {
                let action = match self.insert_index.get(key.as_str()) {
                    Some(place) => DeleteAction::Position { file_path: place.0.clone(), pos: place.1 },
                    None => DeleteAction::Equality,
                };
                self.insert_index.remove(key.as_str());
                assert(self.index() == old(self).index().remove(key@));
                Ok(action)
            },
            Err(error) => Err(error),
        }
    }

    /// Deletes one row, identified by an `identifier` batch shaped like the table's full original
    /// schema (only the configured equality delete columns are used). `projected` is the outcome
    /// of projecting it to those columns.
    pub fn delete(&mut self, identifier: &ArrowBatch, projected: Result<ArrowBatch, Error>) -> (result:
        Result<DeleteAction, Error>)
        requires
            !old(self).is_closed() && contents(*identifier).rows == 1 ==> projects_well(projected),
        ensures
            match (
                result,
                row_key(
                    old(self).is_closed(),
                    "delete"@,
                    contents(*identifier).rows,
                    projected_identifier(projected),
                ),
            ) {
                (Ok(action), Ok(key)) => {
                    &&& action_view(action) == recorded_delete(old(self).index(), key)
                    &&& final(self).index() == old(self).index().remove(key)
                },
                (Err(error), Err(expected)) => error@ == expected && final(self).index() == old(
                    self,
                ).index(),
                _ => false,
            },
            final(self).is_closed() == old(self).is_closed(),
            final(self).writers() == old(self).writers(),
            final(self).spec_equality_config() == old(self).spec_equality_config(),
    {
        let rows = num_rows(identifier);
        let values = self.looked_up_identifier(rows, projected);
        self.delete_row(rows, values)
    }

    /// Builds the record batch of one position delete.
    pub fn position_delete_row(file_path: &str, pos: i64) -> (result: Result<ArrowBatch, Error>)
        requires
            text_bytes(seq![file_path@]) <= i32::MAX,
        ensures
            result matches Ok(batch) && contents(batch) == delete_batch(seq![(file_path@, pos)]),
    {
        let mut rows: Vec<(String, i64)> = Vec::new();
        rows.push((file_path.to_owned(), pos));
        assert(row_views(rows@) == seq![(file_path@, pos)]);
        assert(row_paths(row_views(rows@)) == seq![file_path@]);
        position_delete_batch(&rows)
    }

    /// Begins to update one row: deletes the row identified by `identifier`. How that went goes to
    /// [`update_with`][Self::update_with].
    pub fn update(&mut self, identifier: &ArrowBatch, projected: Result<ArrowBatch, Error>) -> (result:
        Result<DeleteAction, Error>)
        requires
            !old(self).is_closed() && contents(*identifier).rows == 1 ==> projects_well(projected),
        ensures
            match (
                result,
                row_key(
                    old(self).is_closed(),
                    "delete"@,
                    contents(*identifier).rows,
                    projected_identifier(projected),
                ),
            ) {
                (Ok(action), Ok(key)) => {
                    &&& action_view(action) == recorded_delete(old(self).index(), key)
                    &&& final(self).index() == old(self).index().remove(key)
                },
                (Err(error), Err(expected)) => error@ == expected && final(self).index() == old(
                    self,
                ).index(),
                _ => false,
            },
            final(self).is_closed() == old(self).is_closed(),
            final(self).writers() == old(self).writers(),
            final(self).spec_equality_config() == old(self).spec_equality_config(),
    {
        self.delete(identifier, projected)
    }

    /// Goes on with an update once the delete is recorded: accepts `row` for insertion. Where the
    /// delete failed, nothing is inserted.
    pub fn update_with(
        &self,
        deleted: Result<(), Error>,
        row: &ArrowBatch,
        projected: Result<ArrowBatch, Error>,
    ) -> (result: Result<PendingInsert, Error>)
        requires
            deleted is Ok && !self.is_closed() && contents(*row).rows == 1 ==> projects_well(projected),
        ensures
            match deleted {
                Err(error) => result == Err::<PendingInsert, Error>(error),
                Ok(()) => match (
                    result,
                    row_key(
                        self.is_closed(),
                        "insert"@,
                        contents(*row).rows,
                        projected_identifier(projected),
                    ),
                ) {
                    (Ok(pending), Ok(key)) => pending.key() == key,
                    (Err(error), Err(expected)) => error@ == expected,
                    _ => false,
                },
            },
    {
        match deleted {
            Ok(()) => self.insert(row, projected),
            Err(error) => Err(error),
        }
    }

    /// Closes the writer. The data writer, the position delete writer and the equality delete
    /// writer are then to be closed, in the order that [`next_role`] gives.
    pub fn close(&mut self) -> (result: Result<(), Error>)
        ensures
            match result {
                Ok(()) => !old(self).is_closed(),
                Err(error) => old(self).is_closed() && error@ == delta_writer_closed(),
            },
            final(self).is_closed(),
            final(self).index() == old(self).index(),
            final(self).writers() == old(self).writers(),
            final(self).spec_equality_config() == old(self).spec_equality_config(),
    {
        match self.ensure_open() {
            Ok(()) => {},
            Err(error) => {
                return Err(error);
            },
        }
        self.closed = true;
        Ok(())
    }

    /// Every data file, position delete file, and equality delete file that closing the three
    /// writers gave.
    pub fn collected_files<F, P>(
        data: Vec<DataFile<F, P>>,
        position_deletes: Vec<DataFile<F, P>>,
        equality_deletes: Vec<DataFile<F, P>>,
    ) -> (files: Vec<DataFile<F, P>>)
        ensures
            files@ == data@ + position_deletes@ + equality_deletes@,
    {
        let mut files = data;
        let mut position_deletes = position_deletes;
        let mut equality_deletes = equality_deletes;
        files.append(&mut position_deletes);
        files.append(&mut equality_deletes);
        files
    }
}

/// An identifier key begins with the part of the first column.
proof fn lemma_key_front(values: Seq<Option<Seq<char>>>)
    requires
        values.len() > 0,
    ensures
        key_text(values) == column_key(values[0]) + key_text(values.drop_first()),
    decreases values.len(),
{
    let rest = values.drop_first();
    if values.len() == 1 {
        assert(values.drop_last() == rest);
        assert(key_text(rest) == Seq::<char>::empty());
        assert(key_text(values) == column_key(values[0]) + key_text(rest));
    } else {
        lemma_key_front(values.drop_last());
        assert(values.drop_last().drop_first() == rest.drop_last());
        assert(key_text(values) == column_key(values[0]) + key_text(rest));
    }
}

/// No combination of identifier values collides with a different combination, as long as no value
/// contains a NUL.
pub proof fn lemma_keys_do_not_collide(a: Seq<Option<Seq<char>>>, b: Seq<Option<Seq<char>>>)
    requires
        nul_free(a),
        nul_free(b),
    ensures
        key_text(a) == key_text(b) <==> a == b,
    decreases a.len(),
{
    if key_text(a) == key_text(b) {
        if a.len() > 0 {
            lemma_key_front(a);
        }
        if b.len() > 0 {
            lemma_key_front(b);
        }
        if a.len() == 0 || b.len() == 0 {
            assert(key_text(a).len() == key_text(b).len());
            assert(a == b);
        } else {
            let key = key_text(a);
            let (x, y) = (column_key(a[0]), column_key(b[0]));
            let (ra, rb) = (a.drop_first(), b.drop_first());
            assert(key[0] == x[0] && key[0] == y[0]);
            match (a[0], b[0]) {
                (Some(t), Some(u)) => {
                    assert(!t.contains('\0') && !u.contains('\0'));
                    if t.len() < u.len() {
                        assert(x[t.len() as int + 1] == '\0');
                        assert(y[t.len() as int + 1] == u[t.len() as int]);
                        assert(key[t.len() as int + 1] == '\0');
                        assert(u.contains(u[t.len() as int]));
                    }
                    if u.len() < t.len() {
                        assert(y[u.len() as int + 1] == '\0');
                        assert(x[u.len() as int + 1] == t[u.len() as int]);
                        assert(key[u.len() as int + 1] == '\0');
                        assert(t.contains(t[u.len() as int]));
                    }
                    assert forall|i: int| 0 <= i < t.len() implies t[i] == u[i] by {
                        assert(key[i + 1] == x[i + 1]);
                        assert(key[i + 1] == y[i + 1]);
                    }
                    assert(t == u);
                },
                _ => {},
            }
            assert(a[0] == b[0]);
            assert(key_text(ra) == key.skip(x.len() as int));
            assert(key_text(rb) == key.skip(x.len() as int));
            assert(nul_free(ra)) by {
                assert(forall|i: int| 0 <= i < ra.len() ==> ra[i] == a[i + 1]);
            }
            assert(nul_free(rb)) by {
                assert(forall|i: int| 0 <= i < rb.len() ==> rb[i] == b[i + 1]);
            }
            lemma_keys_do_not_collide(ra, rb);
            assert(a == seq![a[0]] + ra);
            assert(b == seq![b[0]] + rb);
        }
    }
}

/// What a delta writer was told about a row.
pub enum DeltaEvent {
    /// The row with this identifier was inserted, and landed at this place.
    Insert(Seq<Option<Seq<char>>>, (Seq<char>, i64)),
    /// The row with this identifier was deleted.
    Delete(Seq<Option<Seq<char>>>),
}

impl DeltaEvent {
    /// The identifier of the row.
    pub open spec fn identifier(self) -> Seq<Option<Seq<char>>> {
        match self {
            DeltaEvent::Insert(values, _) => values,
            DeltaEvent::Delete(values) => values,
        }
    }
}

/// The index after a history of events that were all accepted.
pub open spec fn index_after(events: Seq<DeltaEvent>) -> Map<Seq<char>, (Seq<char>, i64)>
    decreases events.len(),
{
    if events.len() == 0 {
        Map::empty()
    } else {
        let index = index_after(events.drop_last());
        match events.last() {
            DeltaEvent::Insert(values, place) => index.insert(key_text(values), place),
            DeltaEvent::Delete(values) => index.remove(key_text(values)),
        }
    }
}

/// Event `i` inserted the row with the given identifier at the given place, and no later event
/// speaks of that row.
pub open spec fn last_inserted(
    events: Seq<DeltaEvent>,
    i: int,
    values: Seq<Option<Seq<char>>>,
    place: (Seq<char>, i64),
) -> bool {
    &&& events[i] == DeltaEvent::Insert(values, place)
    &&& forall|j: int| i < j < events.len() ==> (#[trigger] events[j]).identifier() != values
}

/// A delete is recorded as a position delete just where the row was inserted before and not
/// deleted since, and then at the place where the last insert of it landed; every other delete
/// falls back to an equality delete.
pub proof fn lemma_delete_after_history(events: Seq<DeltaEvent>, values: Seq<Option<Seq<char>>>)
    requires
        forall|i: int| 0 <= i < events.len() ==> nul_free((#[trigger] events[i]).identifier()),
        nul_free(values),
    ensures
        recorded_delete(index_after(events), key_text(values)) matches Some(place) ==> exists|i: int|
            0 <= i < events.len() && #[trigger] last_inserted(events, i, values, place),
        recorded_delete(index_after(events), key_text(values)) is None ==> forall|
            i: int,
            place: (Seq<char>, i64),
        | 0 <= i < events.len() ==> !#[trigger] last_inserted(events, i, values, place),
    decreases events.len(),
{
    if events.len() > 0 {
        let earlier = events.drop_last();
        let last = events.len() - 1;
        let event = events[last];
        assert forall|i: int| 0 <= i < earlier.len() implies nul_free(
            (#[trigger] earlier[i]).identifier(),
        ) by {
            assert(nul_free(events[i].identifier()));
        }
        lemma_delete_after_history(earlier, values);
        lemma_keys_do_not_collide(event.identifier(), values);
        let before = recorded_delete(index_after(earlier), key_text(values));
        let after = recorded_delete(index_after(events), key_text(values));
        if event.identifier() == values {
            match event {
                DeltaEvent::Insert(_, place) => {
                    assert(after == Some(place));
                    assert(last_inserted(events, last, values, after->0));
                },
                DeltaEvent::Delete(_) => {
                    assert forall|i: int, place: (Seq<char>, i64)|
                        0 <= i < events.len() implies !#[trigger] last_inserted(
                        events,
                        i,
                        values,
                        place,
                    ) by {
                        if i < last {
                            assert(events[last].identifier() == values);
                        }
                    }
                },
            }
        } else {
            assert(after == before);
            match before {
                Some(place) => {
                    let i = choose|i: int|
                        0 <= i < earlier.len() && #[trigger] last_inserted(earlier, i, values, place);
                    assert forall|j: int| i < j < events.len() implies (
                    #[trigger] events[j]).identifier() != values by {
                        if j < last {
                            assert(earlier[j].identifier() != values);
                        }
                    }
                    assert(last_inserted(events, i, values, after->0));
                },
                None => {
                    assert forall|i: int, place: (Seq<char>, i64)|
                        0 <= i < events.len() implies !#[trigger] last_inserted(
                        events,
                        i,
                        values,
                        place,
                    ) by {
                        if last_inserted(events, i, values, place) {
                            assert(i < last);
                            assert forall|j: int| i < j < earlier.len() implies (
                            #[trigger] earlier[j]).identifier() != values by {
                                assert(events[j].identifier() != values);
                            }
                            assert(last_inserted(earlier, i, values, place));
                        }
                    }
                },
            }
        }
    }
}

} // verus!

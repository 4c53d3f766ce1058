//! Snapshots: the whole table as one run of bytes, written when the table is
//! closed and read back when it is opened.
//!
//! A snapshot holds the table's name as a text field, the row count and the
//! number of rows that follow, each in eight bytes little-endian, and then the
//! rows, each in the layout of the row codec. The bytes are written and read by
//! `bincode`; the layout is what this module relies on of it.

use vstd::prelude::*;
use vstd::bytes::{
    lemma_auto_spec_u64_to_from_le_bytes, spec_u64_from_le_bytes, spec_u64_to_le_bytes,
};
use vstd::string::*;
use vstd::utf8::encode_utf8;
use crate::codec::{
    encodable, encoded, field_at, field_bytes, holds, lemma_field_is_canonical,
    lemma_field_reads_back, lemma_row_is_canonical, lemma_row_reads_back, row_at, LENGTH_BYTES,
};
use crate::row::{Row, RowView};
use crate::table::{Table, TableView, ID_SIZE, TABLE_MAX_ROWS};

verus! {

/// The error of `bincode`, carried from its calls to the place that reports it.
#[verifier::external_type_specification]
#[verifier::external_body]
pub struct ExErrorKind(bincode::ErrorKind);

/// A row as the snapshot holds it: id, user name, e-mail address.
pub type RowParts = (u32, String, String);

/// A table as the snapshot holds it: name, row count, rows in insertion order.
pub type TableParts = (String, u64, Vec<RowParts>);

/// What [`TableParts`] hold, in contracts.
pub struct PartsView {
    pub name: Seq<char>,
    pub num_rows: u64,
    pub rows: Seq<RowView>,
}

/// What a list of [`RowParts`] holds, in contracts.
pub open spec fn row_parts_views(rows: Seq<RowParts>) -> Seq<RowView> {
    rows.map_values(|row: RowParts| RowView { id: row.0, username: row.1@, email: row.2@ })
}

/// What [`TableParts`] hold, in contracts.
pub open spec fn parts_view(parts: TableParts) -> PartsView {
    PartsView { name: parts.0@, num_rows: parts.1, rows: row_parts_views(parts.2@) }
}

/// Rows as bytes: each in the layout of the row codec, one after the other.
pub open spec fn rows_image(rows: Seq<RowView>) -> Seq<u8>
    decreases rows.len(),
{
    if rows.len() == 0 {
        Seq::empty()
    } else {
        rows_image(rows.drop_last()) + encoded(rows.last())
    }
}

/// The parts of a table as bytes: the layout of a snapshot.
pub open spec fn snapshot_image(parts: PartsView) -> Seq<u8> {
    field_bytes(parts.name) + spec_u64_to_le_bytes(parts.num_rows) + spec_u64_to_le_bytes(
        parts.rows.len() as u64,
    ) + rows_image(parts.rows)
}

/// Whether every length in the parts can be written in eight bytes. This holds
/// of all parts that memory can hold.
pub open spec fn writable(parts: PartsView) -> bool {
    &&& encode_utf8(parts.name).len() <= u64::MAX
    &&& parts.rows.len() <= u64::MAX
    &&& forall|i: int| 0 <= i < parts.rows.len() ==> encodable(#[trigger] parts.rows[i])
}

/// Calls `bincode::serialize` on the three parts of a table, as one tuple.
/// Trusted, not proved: the call succeeds, since it sets no size limit, every
/// list here knows its length, and writing into a vector cannot fail; and it
/// gives the fields of the tuple one after the other, an integer in
/// little-endian bytes of its width, a string as its length in bytes in eight
/// bytes and then its UTF-8 bytes, and a list as the number of its items in
/// eight bytes and then the items.
#[verifier::external_body]
fn serialize_parts(name: &String, num_rows: u64, rows: &Vec<RowParts>) -> (r: Result<
    Vec<u8>,
    Box<bincode::ErrorKind>,
>)
    ensures
        r is Ok,
        r matches Ok(bytes) ==> bytes@ == snapshot_image(
            (PartsView { name: name@, num_rows, rows: row_parts_views(rows@) }),
        ),
{
    bincode::serialize(&(name, num_rows, rows))
}

/// Calls `bincode::deserialize` for the three parts of a table, as one tuple.
/// Trusted, not proved: the call succeeds exactly where the bytes begin with
/// the image of some parts, and then gives those parts; bytes after the image
/// are ignored.
#[verifier::external_body]
fn deserialize_parts(bytes: &[u8]) -> (r: Result<TableParts, Box<bincode::ErrorKind>>)
    ensures
        match r {
            Ok(parts) => snapshot_image(parts_view(parts)).is_prefix_of(bytes@),
            Err(_) => forall|parts: PartsView|
                !(#[trigger] snapshot_image(parts)).is_prefix_of(bytes@),
        },
{
    bincode::deserialize(bytes)
}

/// The text of a `bincode` error, from its `Display`. Nothing is claimed of it.
#[verifier::external_body]
fn error_text(error: &Box<bincode::ErrorKind>) -> String {
    error.to_string()
}

/// The first `count` rows that stand in `bytes` from position `at` on, one
/// after the other, and the position after them.
pub open spec fn rows_at(bytes: Seq<u8>, at: int, count: nat) -> Option<(Seq<RowView>, int)>
    decreases count,
{
    if count == 0 {
        Some((Seq::empty(), at))
    } else {
        match rows_at(bytes, at, (count - 1) as nat) {
            None => None,
            Some((rows, next)) => match row_at(bytes, next) {
                Err(_) => None,
                Ok((row, end)) => Some((rows.push(row), end)),
            },
        }
    }
}

/// The parts that bytes begin with, if they begin with the image of any.
pub open spec fn snapshot_at(bytes: Seq<u8>) -> Option<PartsView> {
    match field_at(bytes, 0) {
        Err(_) => None,
        Ok((name, at)) => if at + 2 * LENGTH_BYTES > bytes.len() {
            None
        } else {
            let num_rows = spec_u64_from_le_bytes(bytes.subrange(at, at + LENGTH_BYTES));
            let count = spec_u64_from_le_bytes(
                bytes.subrange(at + LENGTH_BYTES, at + 2 * LENGTH_BYTES),
            );
            match rows_at(bytes, at + 2 * LENGTH_BYTES, count as nat) {
                None => None,
                Some((rows, _)) => Some(PartsView { name, num_rows, rows }),
            }
        },
    }
}

/// The image of rows is at least as long as that of each of them, and no row
/// takes fewer bytes than its id and two lengths.
proof fn lemma_rows_image_len(rows: Seq<RowView>)
    ensures
        rows_image(rows).len() >= rows.len() * (ID_SIZE + 2 * LENGTH_BYTES),
        forall|i: int|
            0 <= i < rows.len() ==> encoded(#[trigger] rows[i]).len() <= rows_image(rows).len(),
        forall|i: int|
            0 <= i < rows.len() ==> encoded(#[trigger] rows[i]).len() == ID_SIZE + 2 * LENGTH_BYTES
                + encode_utf8(rows[i].username).len() + encode_utf8(rows[i].email).len(),
    decreases rows.len(),
{
    vstd::bytes::lemma_auto_spec_u32_to_from_le_bytes();
    lemma_auto_spec_u64_to_from_le_bytes();
    if rows.len() > 0 {
        let earlier = rows.drop_last();
        lemma_rows_image_len(earlier);
        assert forall|i: int| 0 <= i < rows.len() implies encoded(#[trigger] rows[i]).len()
            <= rows_image(rows).len() && encoded(rows[i]).len() == ID_SIZE + 2 * LENGTH_BYTES
            + encode_utf8(rows[i].username).len() + encode_utf8(rows[i].email).len() by {
            if i < earlier.len() {
                assert(rows[i] == earlier[i]);
            }
        }
        assert(rows.len() * (ID_SIZE + 2 * LENGTH_BYTES) == earlier.len() * (ID_SIZE + 2
            * LENGTH_BYTES) + (ID_SIZE + 2 * LENGTH_BYTES)) by (nonlinear_arith)
            requires
                rows.len() == earlier.len() + 1,
        ;
    }
}

/// Rows are read back from where they stand, whatever surrounds them.
proof fn lemma_rows_read_back(bytes: Seq<u8>, at: int, rows: Seq<RowView>)
    requires
        holds(bytes, at, rows_image(rows)),
        forall|i: int| 0 <= i < rows.len() ==> encodable(#[trigger] rows[i]),
    ensures
        rows_at(bytes, at, rows.len()) == Some((rows, at + rows_image(rows).len())),
    decreases rows.len(),
{
    if rows.len() == 0 {
        assert(rows == Seq::<RowView>::empty());
    } else {
        let earlier = rows.drop_last();
        let piece = rows_image(rows);
        let head = rows_image(earlier);
        let tail = encoded(rows.last());
        let next = at + head.len();
        assert(bytes.subrange(at, next) == piece.subrange(0, head.len() as int));
        assert(piece.subrange(0, head.len() as int) == head);
        assert(bytes.subrange(next, next + tail.len()) == piece.subrange(
            head.len() as int,
            piece.len() as int,
        ));
        assert(piece.subrange(head.len() as int, piece.len() as int) == tail);
        assert forall|i: int| 0 <= i < earlier.len() implies encodable(#[trigger] earlier[i]) by {
            assert(earlier[i] == rows[i]);
        }
        lemma_rows_read_back(bytes, at, earlier);
        assert(encodable(rows[rows.len() - 1]));
        lemma_row_reads_back(bytes, next, rows.last());
        assert(earlier.push(rows.last()) == rows);
    }
}

/// The rows found at a position stand there, byte for byte.
proof fn lemma_rows_are_canonical(bytes: Seq<u8>, at: int, count: nat)
    requires
        0 <= at <= bytes.len(),
        rows_at(bytes, at, count) is Some,
    ensures
        ({
            let (rows, end) = rows_at(bytes, at, count)->0;
            &&& rows.len() == count
            &&& holds(bytes, at, rows_image(rows))
            &&& end == at + rows_image(rows).len()
            &&& forall|i: int| 0 <= i < rows.len() ==> encodable(#[trigger] rows[i])
        }),
    decreases count,
{
    if count == 0 {
        assert(bytes.subrange(at, at) == Seq::<u8>::empty());
    } else {
        lemma_rows_are_canonical(bytes, at, (count - 1) as nat);
        let (earlier, next) = rows_at(bytes, at, (count - 1) as nat)->0;
        lemma_row_is_canonical(bytes, next);
        let (row, end) = row_at(bytes, next)->Ok_0;
        let rows = earlier.push(row);
        assert(rows.drop_last() == earlier);
        assert(bytes.subrange(at, end) == bytes.subrange(at, next) + bytes.subrange(next, end));
        assert forall|i: int| 0 <= i < rows.len() implies encodable(#[trigger] rows[i]) by {
            if i < earlier.len() {
                assert(rows[i] == earlier[i]);
            }
        }
    }
}

/// Parts whose image fits in bytes that memory can hold are writable.
proof fn lemma_image_is_writable(bytes: Seq<u8>, parts: PartsView)
    requires
        snapshot_image(parts).is_prefix_of(bytes),
        bytes.len() <= u64::MAX,
    ensures
        writable(parts),
{
    lemma_auto_spec_u64_to_from_le_bytes();
    lemma_rows_image_len(parts.rows);
    assert(rows_image(parts.rows).len() >= parts.rows.len()) by (nonlinear_arith)
        requires
            rows_image(parts.rows).len() >= parts.rows.len() * (ID_SIZE + 2 * LENGTH_BYTES),
            ID_SIZE + 2 * LENGTH_BYTES >= 1,
    ;
}

/// Parts are read back from the bytes that begin with their image.
pub proof fn lemma_snapshot_reads_back(bytes: Seq<u8>, parts: PartsView)
    requires
        snapshot_image(parts).is_prefix_of(bytes),
        writable(parts),
    ensures
        snapshot_at(bytes) == Some(parts),
{
    let name = field_bytes(parts.name);
    let num_rows = spec_u64_to_le_bytes(parts.num_rows);
    let count = spec_u64_to_le_bytes(parts.rows.len() as u64);
    let rows = rows_image(parts.rows);
    let image = snapshot_image(parts);
    let at = name.len() as int;
    lemma_auto_spec_u64_to_from_le_bytes();
    assert(bytes.subrange(0, image.len() as int) == image);
    assert(bytes.subrange(0, at) == image.subrange(0, at));
    assert(image.subrange(0, at) == name);
    lemma_field_reads_back(bytes, 0, parts.name);
    assert(bytes.subrange(at, at + LENGTH_BYTES) == image.subrange(at, at + LENGTH_BYTES));
    assert(image.subrange(at, at + LENGTH_BYTES) == num_rows);
    assert(bytes.subrange(at + LENGTH_BYTES, at + 2 * LENGTH_BYTES) == image.subrange(
        at + LENGTH_BYTES,
        at + 2 * LENGTH_BYTES,
    ));
    assert(image.subrange(at + LENGTH_BYTES, at + 2 * LENGTH_BYTES) == count);
    assert(bytes.subrange(at + 2 * LENGTH_BYTES, at + 2 * LENGTH_BYTES + rows.len())
        == image.subrange(at + 2 * LENGTH_BYTES, image.len() as int));
    assert(image.subrange(at + 2 * LENGTH_BYTES, image.len() as int) == rows);
    lemma_rows_read_back(bytes, at + 2 * LENGTH_BYTES, parts.rows);
}

/// The parts found in bytes stand at their beginning, byte for byte.
pub proof fn lemma_snapshot_is_canonical(bytes: Seq<u8>)
    requires
        snapshot_at(bytes) is Some,
    ensures
        snapshot_image(snapshot_at(bytes)->0).is_prefix_of(bytes),
        writable(snapshot_at(bytes)->0),
{
    let parts = snapshot_at(bytes)->0;
    let at = field_at(bytes, 0)->Ok_0.1;
    let first = at + LENGTH_BYTES;
    let second = at + 2 * LENGTH_BYTES;
    let count = spec_u64_from_le_bytes(bytes.subrange(first, second));
    lemma_auto_spec_u64_to_from_le_bytes();
    lemma_field_is_canonical(bytes, 0);
    lemma_rows_are_canonical(bytes, second, count as nat);
    let found = rows_at(bytes, second, count as nat)->0;
    let end = found.1;
    assert(spec_u64_to_le_bytes(parts.num_rows) == bytes.subrange(at, first));
    assert(spec_u64_to_le_bytes(parts.rows.len() as u64) == bytes.subrange(first, second));
    assert(bytes.subrange(0, end) == bytes.subrange(0, at) + bytes.subrange(at, first)
        + bytes.subrange(first, second) + bytes.subrange(second, end));
    assert(snapshot_image(parts) == bytes.subrange(0, end));
}

/// Why bytes could not be read as a snapshot.
#[derive(Debug, PartialEq, Eq)]
pub enum SerializationError {
    /// The bytes are no snapshot; holds the decoder's words.
    Undecodable(String),
    /// The bytes decode, but to no table: the row count is not the number of
    /// rows, or there are more rows than a table may hold.
    Corrupt,
}

/// The kinds of [`SerializationError`], without the words.
#[derive(Debug, PartialEq, Eq, Structural)]
pub enum SerializationErrorKind {
    Undecodable,
    Corrupt,
}

impl SerializationError {
    /// Which kind of error this is.
    pub open spec fn kind(&self) -> SerializationErrorKind {
        match self {
            SerializationError::Undecodable(_) => SerializationErrorKind::Undecodable,
            SerializationError::Corrupt => SerializationErrorKind::Corrupt,
        }
    }
}

/// The text that reports a [`SerializationError`].
pub open spec fn failure_text(error: SerializationError) -> Seq<char> {
    match error {
        SerializationError::Undecodable(words) => "Deserialization failed: "@ + words@,
        SerializationError::Corrupt => "Deserialization failed: the snapshot describes no table"@,
    }
}

impl SerializationError {
    /// The text that reports this error.
    pub fn message(&self) -> (text: String)
        ensures
            text@ == failure_text(*self),
    {
        match self {
            SerializationError::Undecodable(words) => {
                String::from_str("Deserialization failed: ").concat(words.as_str())
            },
            SerializationError::Corrupt => String::from_str(
                "Deserialization failed: the snapshot describes no table",
            ),
        }
    }
}

/// The parts of a table: its name, the number of its rows, and the rows.
pub open spec fn parts_of(table: TableView) -> PartsView {
    PartsView { name: table.name, num_rows: table.rows.len() as u64, rows: table.rows }
}

/// The table that parts describe. They describe one where the row count is the
/// number of rows and a table may hold that many.
pub open spec fn restored(parts: PartsView) -> Result<TableView, SerializationErrorKind> {
    if parts.num_rows == parts.rows.len() && parts.rows.len() <= TABLE_MAX_ROWS {
        Ok(TableView { name: parts.name, rows: parts.rows })
    } else {
        Err(SerializationErrorKind::Corrupt)
    }
}

/// The table that the content of the snapshot file `name` describes: a fresh
/// table of that name for an empty file, else the table whose parts the bytes
/// begin with.
pub open spec fn opened(name: Seq<char>, bytes: Seq<u8>) -> Result<
    TableView,
    SerializationErrorKind,
> {
    if bytes.len() == 0 {
        Ok(TableView { name, rows: Seq::empty() })
    } else {
        match snapshot_at(bytes) {
            Some(parts) => restored(parts),
            None => Err(SerializationErrorKind::Undecodable),
        }
    }
}

/// What the result of reading a snapshot is in contracts.
pub open spec fn restore_view(r: Result<Table, SerializationError>) -> Result<
    TableView,
    SerializationErrorKind,
> {
    match r {
        Ok(table) => Ok(table@),
        Err(error) => Err(error.kind()),
    }
}

/// The snapshot of a table opens to that table again, from whatever file it is
/// read: the same name, the same number of rows, and the same rows in the same
/// order.
pub proof fn lemma_snapshot_reopens(table: TableView, file: Seq<char>)
    requires
        table.rows.len() <= TABLE_MAX_ROWS,
        writable(parts_of(table)),
    ensures
        opened(file, snapshot_image(parts_of(table))) == Ok::<TableView, SerializationErrorKind>(
            table,
        ),
{
    let image = snapshot_image(parts_of(table));
    lemma_auto_spec_u64_to_from_le_bytes();
    lemma_snapshot_reads_back(image, parts_of(table));
}

impl Table {
    /// The parts of this table, for a snapshot.
    pub fn to_parts(&self) -> (parts: TableParts)
        requires
            self.wf(),
        ensures
            parts_view(parts) == parts_of(self@),
    {
        let n = self.num_rows();
        let mut rows: Vec<RowParts> = Vec::new();
        let mut i: usize = 0;
        while i < n
            invariant
                self.wf(),
                n == self@.rows.len(),
                i <= n,
                row_parts_views(rows@) == self@.rows.take(i as int),
            decreases n - i,
        {
            let row = self.slot_of(i);
            let item: RowParts = (row.id, row.username.clone(), row.email.clone());
            assert(row_parts_views(rows@.push(item)) == row_parts_views(rows@).push(row@));
            rows.push(item);
            i += 1;
        }
        assert(self@.rows.take(n as int) == self@.rows);
        (self.name().to_owned(), n as u64, rows)
    }

    /// The table that `parts` describe, if they describe one.
    pub fn from_parts(parts: TableParts) -> (r: Result<Table, SerializationError>)
        ensures
            r matches Ok(table) ==> table.wf(),
            restore_view(r) == restored(parts_view(parts)),
    {
        let (name, num_rows, rows) = parts;
        let n = rows.len();
        if n as u64 != num_rows || n > TABLE_MAX_ROWS {
            return Err(SerializationError::Corrupt);
        }
        let ghost target = row_parts_views(rows@);
        let mut table = Table::new(Some(name));
        let mut i: usize = 0;
        while i < n
            invariant
                table.wf(),
                n == rows.len(),
                n <= TABLE_MAX_ROWS,
                i <= n,
                target == row_parts_views(rows@),
                table@.name == parts.0@,
                table@.rows == target.take(i as int),
            decreases n - i,
        {
            let row = Row::new(rows[i].0, rows[i].1.as_str(), rows[i].2.as_str());
            let appended = table.append(row);
            assert(appended is Ok);
            assert(target.take(i + 1) == target.take(i as int).push(target[i as int]));
            i += 1;
        }
        assert(target.take(n as int) == target);
        Ok(table)
    }

    /// The snapshot of this table: what to write when the table is closed.
    /// What is written opens to this table again, from whatever file it is read.
    pub fn db_close(&self) -> (bytes: Vec<u8>)
        requires
            self.wf(),
        ensures
            bytes@ == snapshot_image(parts_of(self@)),
            forall|file: Seq<char>|
                #[trigger] opened(file, bytes@) == Ok::<TableView, SerializationErrorKind>(self@),
    {
        let (name, num_rows, rows) = self.to_parts();
        let bytes = serialize_parts(&name, num_rows, &rows).unwrap();
        proof {
            self.lemma_within_capacity();
            assert(bytes.len() <= usize::MAX);
            assert(bytes@.is_prefix_of(bytes@));
            lemma_image_is_writable(bytes@, parts_of(self@));
            assert forall|file: Seq<char>|
                #[trigger] opened(file, bytes@) == Ok::<TableView, SerializationErrorKind>(
                    self@,
                ) by {
                lemma_snapshot_reopens(self@, file);
            }
        }
        bytes
    }
}

/// Opens the table of the snapshot file `name` from what the file holds. An
/// empty file gives a fresh table of that name; anything else is read as a
/// snapshot, and bytes after it are ignored.
pub fn db_open(name: &str, buffer: &[u8]) -> (r: Result<Table, SerializationError>)
    ensures
        r matches Ok(table) ==> table.wf(),
        restore_view(r) == opened(name@, buffer@),
{
    if buffer.len() == 0 {
        return Ok(Table::new(Some(name.to_owned())));
    }
    match deserialize_parts(buffer) {
        Ok(parts) => {
            proof {
                lemma_image_is_writable(buffer@, parts_view(parts));
                lemma_snapshot_reads_back(buffer@, parts_view(parts));
            }
            Table::from_parts(parts)
        },
        Err(error) => {
            proof {
                if snapshot_at(buffer@) is Some {
                    lemma_snapshot_is_canonical(buffer@);
                }
            }
            Err(SerializationError::Undecodable(error_text(&error)))
        },
    }
}

} // verus!

//! The row codec: one row as a run of bytes, and back.
//!
//! A row is laid out as its id in four bytes, little-endian, then the user name
//! and the e-mail address. Each text field is its length in bytes, as eight
//! bytes little-endian, followed by its UTF-8 bytes. The lengths are what make
//! the layout decodable: without them nothing would tell where the user name
//! ends.

use vstd::prelude::*;
use vstd::bytes::{
    lemma_auto_spec_u32_to_from_le_bytes, lemma_auto_spec_u64_to_from_le_bytes,
    spec_u32_from_le_bytes, spec_u32_to_le_bytes, spec_u64_from_le_bytes, spec_u64_to_le_bytes,
    u32_from_le_bytes, u32_to_le_bytes, u64_from_le_bytes, u64_to_le_bytes,
};
use vstd::slice::{slice_subrange, slice_to_vec};
use vstd::string::*;
use vstd::utf8::{
    decode_utf8, decode_utf8_encode_utf8, encode_utf8, encode_utf8_decode_utf8,
    encode_utf8_valid_utf8, valid_utf8,
};
use crate::row::{Row, RowView};
use crate::table::ID_SIZE;

verus! {

/// Bytes of the length that precedes a text field.
pub const LENGTH_BYTES: usize = 8;

/// Why bytes are not the encoding of a row.
#[derive(Debug, PartialEq, Eq, Structural)]
pub enum DecodeError {
    /// The bytes end before the id, a length or a text field is complete.
    Truncated,
    /// A text field is not UTF-8.
    InvalidUtf8,
    /// Bytes are left over after the e-mail address.
    TrailingBytes,
}

/// A text field as bytes: the length of its UTF-8 form, then that form.
pub open spec fn field_bytes(text: Seq<char>) -> Seq<u8> {
    spec_u64_to_le_bytes(encode_utf8(text).len() as u64) + encode_utf8(text)
}

/// A row as bytes.
pub open spec fn encoded(row: RowView) -> Seq<u8> {
    spec_u32_to_le_bytes(row.id) + field_bytes(row.username) + field_bytes(row.email)
}

/// Whether the lengths of a row's text fields can be written in eight bytes.
/// This holds of every row that memory can hold.
pub open spec fn encodable(row: RowView) -> bool {
    &&& encode_utf8(row.username).len() <= u64::MAX
    &&& encode_utf8(row.email).len() <= u64::MAX
}

/// The text field that starts at position `at` of `bytes`, and the position
/// after it.
pub open spec fn field_at(bytes: Seq<u8>, at: int) -> Result<(Seq<char>, int), DecodeError> {
    if at + LENGTH_BYTES > bytes.len() {
        Err(DecodeError::Truncated)
    } else {
        let start = at + LENGTH_BYTES;
        let length = spec_u64_from_le_bytes(bytes.subrange(at, start));
        if start + length > bytes.len() {
            Err(DecodeError::Truncated)
        } else if !valid_utf8(bytes.subrange(start, start + length)) {
            Err(DecodeError::InvalidUtf8)
        } else {
            Ok((decode_utf8(bytes.subrange(start, start + length)), start + length))
        }
    }
}

/// The row that starts at position `at` of `bytes`, and the position after it.
pub open spec fn row_at(bytes: Seq<u8>, at: int) -> Result<(RowView, int), DecodeError> {
    if at + ID_SIZE > bytes.len() {
        Err(DecodeError::Truncated)
    } else {
        let id = spec_u32_from_le_bytes(bytes.subrange(at, at + ID_SIZE));
        match field_at(bytes, at + ID_SIZE) {
            Err(error) => Err(error),
            Ok((username, next)) => match field_at(bytes, next) {
                Err(error) => Err(error),
                Ok((email, end)) => Ok((RowView { id, username, email }, end)),
            },
        }
    }
}

/// The row that `bytes` encode, or why they encode none. The bytes must hold
/// one row and nothing else.
pub open spec fn decoded(bytes: Seq<u8>) -> Result<RowView, DecodeError> {
    match row_at(bytes, 0) {
        Err(error) => Err(error),
        Ok((row, end)) => if end == bytes.len() {
            Ok(row)
        } else {
            Err(DecodeError::TrailingBytes)
        },
    }
}

/// What the result of decoding is in contracts.
pub open spec fn decoded_view(r: Result<Row, DecodeError>) -> Result<RowView, DecodeError> {
    match r {
        Ok(row) => Ok(row@),
        Err(error) => Err(error),
    }
}

/// Whether `piece` stands in `bytes` at position `at`.
pub open spec fn holds(bytes: Seq<u8>, at: int, piece: Seq<u8>) -> bool {
    0 <= at && at + piece.len() <= bytes.len() && bytes.subrange(at, at + piece.len()) == piece
}

/// A text field is read back from where it stands, whatever surrounds it.
pub proof fn lemma_field_reads_back(bytes: Seq<u8>, at: int, text: Seq<char>)
    requires
        holds(bytes, at, field_bytes(text)),
        encode_utf8(text).len() <= u64::MAX,
    ensures
        field_at(bytes, at) == Ok::<(Seq<char>, int), DecodeError>(
            (text, at + field_bytes(text).len()),
        ),
        field_bytes(text).len() == LENGTH_BYTES + encode_utf8(text).len(),
{
    let raw = encode_utf8(text);
    let piece = field_bytes(text);
    let start = at + LENGTH_BYTES;
    lemma_auto_spec_u64_to_from_le_bytes();
    encode_utf8_valid_utf8(text);
    encode_utf8_decode_utf8(text);
    assert(bytes.subrange(at, start) == piece.subrange(0, LENGTH_BYTES as int));
    assert(piece.subrange(0, LENGTH_BYTES as int) == spec_u64_to_le_bytes(raw.len() as u64));
    assert(bytes.subrange(start, start + raw.len()) == piece.subrange(
        LENGTH_BYTES as int,
        piece.len() as int,
    ));
    assert(piece.subrange(LENGTH_BYTES as int, piece.len() as int) == raw);
}

/// A row is read back from where it stands, whatever surrounds it.
pub proof fn lemma_row_reads_back(bytes: Seq<u8>, at: int, row: RowView)
    requires
        holds(bytes, at, encoded(row)),
        encodable(row),
    ensures
        row_at(bytes, at) == Ok::<(RowView, int), DecodeError>((row, at + encoded(row).len())),
        encoded(row).len() >= ID_SIZE + 2 * LENGTH_BYTES,
{
    let id = spec_u32_to_le_bytes(row.id);
    let username = field_bytes(row.username);
    let email = field_bytes(row.email);
    let piece = encoded(row);
    let next = at + ID_SIZE + username.len();
    lemma_auto_spec_u32_to_from_le_bytes();
    lemma_auto_spec_u64_to_from_le_bytes();
    assert(bytes.subrange(at, at + ID_SIZE) == piece.subrange(0, ID_SIZE as int));
    assert(piece.subrange(0, ID_SIZE as int) == id);
    assert(bytes.subrange(at + ID_SIZE, next) == piece.subrange(
        ID_SIZE as int,
        ID_SIZE + username.len(),
    ));
    assert(piece.subrange(ID_SIZE as int, ID_SIZE + username.len()) == username);
    lemma_field_reads_back(bytes, at + ID_SIZE, row.username);
    assert(bytes.subrange(next, next + email.len()) == piece.subrange(
        ID_SIZE + username.len(),
        piece.len() as int,
    ));
    assert(piece.subrange(ID_SIZE + username.len(), piece.len() as int) == email);
    lemma_field_reads_back(bytes, next, row.email);
}

/// Decoding what was encoded gives the row again: the id, the user name and the
/// e-mail address, each exactly.
pub proof fn lemma_decode_encode(row: RowView)
    requires
        encodable(row),
    ensures
        decoded(encoded(row)) == Ok::<RowView, DecodeError>(row),
{
    let bytes = encoded(row);
    assert(bytes.subrange(0, bytes.len() as int) == bytes);
    lemma_row_reads_back(bytes, 0, row);
}

/// The text field found at a position stands there, byte for byte.
pub proof fn lemma_field_is_canonical(bytes: Seq<u8>, at: int)
    requires
        0 <= at,
        field_at(bytes, at) is Ok,
    ensures
        ({
            let (text, end) = field_at(bytes, at)->Ok_0;
            &&& holds(bytes, at, field_bytes(text))
            &&& end == at + field_bytes(text).len()
            &&& encode_utf8(text).len() <= u64::MAX
        }),
{
    let start = at + LENGTH_BYTES;
    let length = spec_u64_from_le_bytes(bytes.subrange(at, start));
    let raw = bytes.subrange(start, start + length);
    let (text, end) = field_at(bytes, at)->Ok_0;
    lemma_auto_spec_u64_to_from_le_bytes();
    decode_utf8_encode_utf8(raw);
    assert(spec_u64_to_le_bytes(length) == bytes.subrange(at, start));
    assert(bytes.subrange(at, end) == bytes.subrange(at, start) + raw);
}

/// The row found at a position stands there, byte for byte.
pub proof fn lemma_row_is_canonical(bytes: Seq<u8>, at: int)
    requires
        0 <= at,
        row_at(bytes, at) is Ok,
    ensures
        ({
            let (row, end) = row_at(bytes, at)->Ok_0;
            &&& holds(bytes, at, encoded(row))
            &&& end == at + encoded(row).len()
            &&& encodable(row)
        }),
{
    let (row, end) = row_at(bytes, at)->Ok_0;
    let first = at + ID_SIZE;
    let next = field_at(bytes, first)->Ok_0.1;
    lemma_auto_spec_u32_to_from_le_bytes();
    lemma_field_is_canonical(bytes, first);
    lemma_field_is_canonical(bytes, next);
    assert(spec_u32_to_le_bytes(row.id) == bytes.subrange(at, first));
    assert(bytes.subrange(at, end) == bytes.subrange(at, first) + bytes.subrange(first, next)
        + bytes.subrange(next, end));
}

/// A row has one encoding: bytes that decode to a row are that row's encoding.
pub proof fn lemma_encode_decode(bytes: Seq<u8>)
    requires
        decoded(bytes) is Ok,
    ensures
        encodable(decoded(bytes)->Ok_0),
        encoded(decoded(bytes)->Ok_0) == bytes,
{
    lemma_row_is_canonical(bytes, 0);
    assert(bytes.subrange(0, bytes.len() as int) == bytes);
}

/// Calls `String::from_utf8` of std. Claimed: it gives a string exactly where
/// the bytes are UTF-8, and the string then holds the characters that the bytes
/// encode.
#[verifier::external_body]
fn text_from_utf8(bytes: Vec<u8>) -> (text: Option<String>)
    ensures
        match text {
            Some(s) => valid_utf8(bytes@) && s@ == decode_utf8(bytes@),
            None => !valid_utf8(bytes@),
        },
{
    String::from_utf8(bytes).ok()
}

/// Writes a text field at the end of `out`.
fn push_field(out: &mut Vec<u8>, text: &str)
    ensures
        final(out)@ == old(out)@ + field_bytes(text@),
        encode_utf8(text@).len() <= u64::MAX,
{
    let mut raw = text.as_bytes_vec();
    let mut length = u64_to_le_bytes(raw.len() as u64);
    out.append(&mut length);
    out.append(&mut raw);
    assert(final(out)@ == old(out)@ + field_bytes(text@));
}

/// Reads the text field that starts at position `at` of `bytes`.
fn read_field(bytes: &[u8], at: usize) -> (r: Result<(String, usize), DecodeError>)
    requires
        at <= bytes@.len(),
    ensures
        match r {
            Ok((text, end)) => field_at(bytes@, at as int) == Ok::<(Seq<char>, int), DecodeError>(
                (text@, end as int),
            ) && end <= bytes@.len(),
            Err(error) => field_at(bytes@, at as int) == Err::<(Seq<char>, int), DecodeError>(
                error,
            ),
        },
{
    let n = bytes.len();
    if n - at < LENGTH_BYTES {
        return Err(DecodeError::Truncated);
    }
    let start = at + LENGTH_BYTES;
    let length = u64_from_le_bytes(slice_subrange(bytes, at, start));
    if length > (n - start) as u64 {
        return Err(DecodeError::Truncated);
    }
    let end = start + length as usize;
    match text_from_utf8(slice_to_vec(slice_subrange(bytes, start, end))) {
        Some(text) => Ok((text, end)),
        None => Err(DecodeError::InvalidUtf8),
    }
}

/// Encodes a row.
pub fn encode(row: &Row) -> (bytes: Vec<u8>)
    ensures
        bytes@ == encoded(row@),
        encodable(row@),
{
    let mut bytes = u32_to_le_bytes(row.id);
    push_field(&mut bytes, row.username.as_str());
    push_field(&mut bytes, row.email.as_str());
    bytes
}

/// Decodes a row from bytes that hold one row and nothing else.
pub fn decode(bytes: &[u8]) -> (r: Result<Row, DecodeError>)
    ensures
        decoded_view(r) == decoded(bytes@),
{
    if bytes.len() < ID_SIZE {
        return Err(DecodeError::Truncated);
    }
    let id = u32_from_le_bytes(slice_subrange(bytes, 0, ID_SIZE));
    let (username, next) = match read_field(bytes, ID_SIZE) {
        Ok(field) => field,
        Err(error) => {
            return Err(error);
        },
    };
    let (email, end) = match read_field(bytes, next) {
        Ok(field) => field,
        Err(error) => {
            return Err(error);
        },
    };
    if end != bytes.len() {
        return Err(DecodeError::TrailingBytes);
    }
    Ok(Row { id, username, email })
}

} // verus!

//! A single-table row store.
//!
//! Rows of an id, a user name and an e-mail address are kept in fixed-size pages
//! and appended at the tail, up to a fixed ceiling of
//! [`table::TABLE_MAX_ROWS`] rows: ten pages of ten slots. Lines of a small
//! command language insert rows, list them and discard them. A row has a binary
//! form, and the whole table is written to and read from a snapshot that holds
//! its rows in that form.
//!
//! - [`row`]: the row record.
//! - [`codec`]: a row as bytes, and back.
//! - [`table`]: the page store.
//! - [`text`]: whitespace, words and decimal numbers.
//! - [`statement`]: statements and their parser.
//! - [`executor`]: statements carried out on a table.
//! - [`command`]: one line of input at a time, and the texts that report it.
//! - [`snapshot`]: the table as one run of bytes, written and read by `bincode`.
//! - [`strsplit`]: a string cut at a delimiter, piece by piece.

pub mod codec;
pub mod command;
pub mod executor;
pub mod row;
pub mod snapshot;
pub mod statement;
pub mod strsplit;
pub mod table;
pub mod text;

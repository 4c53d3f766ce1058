//! The row record and its mathematical model.

use vstd::prelude::*;
use vstd::string::*;
use crate::text::{decimal_text, push_decimal};

verus! {

/// What a [`Row`] is in contracts: its id and the characters of its two text fields.
pub struct RowView {
    pub id: u32,
    pub username: Seq<char>,
    pub email: Seq<char>,
}

/// One record of the table. Ids are not required to be unique.
#[derive(Debug, PartialEq, Eq)]
pub struct Row {
    pub id: u32,
    pub username: String,
    pub email: String,
}

impl View for Row {
    type V = RowView;

    open spec fn view(&self) -> RowView {
        RowView { id: self.id, username: self.username@, email: self.email@ }
    }
}

/// What a list of rows is in contracts.
pub open spec fn row_views(rows: Seq<Row>) -> Seq<RowView> {
    rows.map_values(|row: Row| row@)
}

/// The line that shows a row: `(id, username, email)`, the id in base ten.
pub open spec fn row_text(row: RowView) -> Seq<char> {
    "("@ + decimal_text(row.id as nat) + ", "@ + row.username + ", "@ + row.email + ")"@
}

impl Clone for Row {
    fn clone(&self) -> (copy: Row)
        ensures
            copy == *self,
    {
        Row { id: self.id, username: self.username.clone(), email: self.email.clone() }
    }
}

impl Row {
    /// A row with the given id and text fields.
    pub fn new(id: u32, username: &str, email: &str) -> (row: Row)
        ensures
            row@ == (RowView { id, username: username@, email: email@ }),
    {
        Row { id, username: username.to_owned(), email: email.to_owned() }
    }

    /// The line that shows this row.
    pub fn render(&self) -> (line: String)
        ensures
            line@ == row_text(self@),
    {
        let mut line = String::from_str("(");
        push_decimal(&mut line, self.id);
        line.append(", ");
        line.append(self.username.as_str());
        line.append(", ");
        line.append(self.email.as_str());
        line.append(")");
        line
    }
}

} // verus!

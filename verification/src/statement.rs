//! Statements and the parser that reads one from a line of text.

use vstd::prelude::*;
use crate::row::{Row, RowView};
use crate::text::{decimal_u32, parse_u32, same_text, split_words, texts, words};

verus! {

/// One command for the table.
#[derive(Debug, PartialEq, Eq)]
pub enum Statement {
    /// Append the row at the tail of the table.
    Insert(Row),
    /// List every row, in insertion order.
    Select,
    /// Discard every row.
    Truncate,
}

/// What a [`Statement`] is in contracts.
pub enum StatementView {
    Insert(RowView),
    Select,
    Truncate,
}

impl View for Statement {
    type V = StatementView;

    open spec fn view(&self) -> StatementView {
        match self {
            Statement::Insert(row) => StatementView::Insert(row@),
            Statement::Select => StatementView::Select,
            Statement::Truncate => StatementView::Truncate,
        }
    }
}

/// Why a line is not a statement.
#[derive(Debug, PartialEq, Eq)]
pub enum ParseError {
    /// The id of an `insert` is not a non-negative number that fits 32 bits.
    InvalidId,
    /// An `insert` has fewer than three words after the keyword.
    InvalidFormat,
    /// The first word is no keyword; holds that word, which is empty where the
    /// line has no word at all.
    UnknownCommand(String),
}

/// What a [`ParseError`] is in contracts.
pub enum ParseErrorView {
    InvalidId,
    InvalidFormat,
    UnknownCommand(Seq<char>),
}

impl View for ParseError {
    type V = ParseErrorView;

    open spec fn view(&self) -> ParseErrorView {
        match self {
            ParseError::InvalidId => ParseErrorView::InvalidId,
            ParseError::InvalidFormat => ParseErrorView::InvalidFormat,
            ParseError::UnknownCommand(word) => ParseErrorView::UnknownCommand(word@),
        }
    }
}

/// The statement that the words of an `insert` line describe: the word after the
/// keyword is the id, the next two are the user name and the e-mail address, and
/// any further words are ignored.
pub open spec fn parse_insert(w: Seq<Seq<char>>) -> Result<StatementView, ParseErrorView> {
    if w.len() < 4 {
        Err(ParseErrorView::InvalidFormat)
    } else {
        match decimal_u32(w[1]) {
            Some(id) => Ok(StatementView::Insert(RowView { id, username: w[2], email: w[3] })),
            None => Err(ParseErrorView::InvalidId),
        }
    }
}

/// The statement that a line describes, or why it describes none. The first word
/// selects the kind of statement; keywords are case-sensitive.
pub open spec fn parse(line: Seq<char>) -> Result<StatementView, ParseErrorView> {
    let w = words(line);
    if w.len() == 0 {
        Err(ParseErrorView::UnknownCommand(Seq::empty()))
    } else if w[0] == "insert"@ {
        parse_insert(w)
    } else if w[0] == "select"@ {
        Ok(StatementView::Select)
    } else if w[0] == "truncate"@ {
        Ok(StatementView::Truncate)
    } else {
        Err(ParseErrorView::UnknownCommand(w[0]))
    }
}

/// What a parse result is in contracts.
pub open spec fn parsed_view(r: Result<Statement, ParseError>) -> Result<
    StatementView,
    ParseErrorView,
> {
    match r {
        Ok(statement) => Ok(statement@),
        Err(error) => Err(error@),
    }
}

/// Reads a statement from a line of text. The table is not involved: a line that
/// fails to parse changes nothing.
pub fn prepare_statement(input: &str) -> (r: Result<Statement, ParseError>)
    ensures
        parsed_view(r) == parse(input@),
{
    let w = split_words(input);
    assert(texts(w@).len() == w@.len());
    if w.len() == 0 {
        return Err(ParseError::UnknownCommand(String::new()));
    }
    let command = w[0];
    assert(command@ == texts(w@)[0]);
    if same_text(command, "insert") {
        if w.len() < 4 {
            return Err(ParseError::InvalidFormat);
        }
        assert(w[1]@ == texts(w@)[1]);
        assert(w[2]@ == texts(w@)[2]);
        assert(w[3]@ == texts(w@)[3]);
        match parse_u32(w[1]) {
            Some(id) => Ok(Statement::Insert(Row::new(id, w[2], w[3]))),
            None => Err(ParseError::InvalidId),
        }
    } else if same_text(command, "select") {
        Ok(Statement::Select)
    } else if same_text(command, "truncate") {
        Ok(Statement::Truncate)
    } else {
        Err(ParseError::UnknownCommand(command.to_owned()))
    }
}

} // verus!

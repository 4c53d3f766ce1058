//! One line of input at a time: meta-commands, statements, and the texts that
//! report what happened.

use vstd::prelude::*;
use vstd::string::*;
use crate::executor::{execute, execute_statement, ExecError};
use crate::row::{row_views, Row, RowView};
use crate::statement::{parse, prepare_statement, ParseError, ParseErrorView};
use crate::table::{Table, TableView};
use crate::text::{chars_of, is_whitespace, same_text, split_words, texts, words};

verus! {

/// What a line asks the caller to do once the table has been dealt with.
#[derive(Debug, PartialEq, Eq)]
pub enum Outcome {
    /// The statement was carried out; these are the rows it lists.
    Rows(Vec<Row>),
    /// The line was `.exit`: persist the table and stop.
    Exit,
}

/// What an [`Outcome`] is in contracts.
pub enum OutcomeView {
    Rows(Seq<RowView>),
    Exit,
}

impl View for Outcome {
    type V = OutcomeView;

    open spec fn view(&self) -> OutcomeView {
        match self {
            Outcome::Rows(rows) => OutcomeView::Rows(row_views(rows@)),
            Outcome::Exit => OutcomeView::Exit,
        }
    }
}

/// Why a line had no effect.
#[derive(Debug, PartialEq, Eq)]
pub enum CommandError {
    /// The line is no statement and no known meta-command.
    Parse(ParseError),
    /// The statement could not be carried out.
    Exec(ExecError),
}

/// What a [`CommandError`] is in contracts.
pub enum CommandErrorView {
    Parse(ParseErrorView),
    Exec(ExecError),
}

impl View for CommandError {
    type V = CommandErrorView;

    open spec fn view(&self) -> CommandErrorView {
        match self {
            CommandError::Parse(error) => CommandErrorView::Parse(error@),
            CommandError::Exec(error) => CommandErrorView::Exec(*error),
        }
    }
}

/// Whether a line is a meta-command: its first character is a dot.
pub open spec fn is_meta(line: Seq<char>) -> bool {
    line.len() > 0 && line[0] == '.'
}

/// What a line does to a table: the outcome or the error, and the table after
/// it. Only `.exit` is a known meta-command. Every error leaves the table as it
/// was.
pub open spec fn run(line: Seq<char>, table: TableView) -> (
    Result<OutcomeView, CommandErrorView>,
    TableView,
) {
    if is_meta(line) {
        if line == ".exit"@ {
            (Ok(OutcomeView::Exit), table)
        } else {
            (Err(CommandErrorView::Parse(ParseErrorView::UnknownCommand(words(line)[0]))), table)
        }
    } else {
        match parse(line) {
            Err(error) => (Err(CommandErrorView::Parse(error)), table),
            Ok(statement) => match execute(statement, table) {
                (Ok(rows), after) => (Ok(OutcomeView::Rows(rows)), after),
                (Err(error), after) => (Err(CommandErrorView::Exec(error)), after),
            },
        }
    }
}

/// What the result of a line is in contracts.
pub open spec fn result_view(r: Result<Outcome, CommandError>) -> Result<
    OutcomeView,
    CommandErrorView,
> {
    match r {
        Ok(outcome) => Ok(outcome@),
        Err(error) => Err(error@),
    }
}

/// Handles one line of input: a meta-command, or a statement that is parsed and
/// carried out on `table`.
pub fn handle_valid_input(input: &str, table: &mut Table) -> (r: Result<Outcome, CommandError>)
    requires
        old(table).wf(),
    ensures
        final(table).wf(),
        (result_view(r), final(table)@) == run(input@, old(table)@),
        r is Err || r == Ok::<Outcome, CommandError>(Outcome::Exit) ==> *final(table) == *old(
            table,
        ),
{
    let chars = chars_of(input);
    if chars.len() > 0 && chars[0] == '.' {
        if same_text(input, ".exit") {
            return Ok(Outcome::Exit);
        }
        let w = split_words(input);
        assert(texts(w@).len() == w@.len());
        assert(!is_whitespace('.'));
        assert(w[0]@ == texts(w@)[0]);
        return Err(CommandError::Parse(ParseError::UnknownCommand(w[0].to_owned())));
    }
    match prepare_statement(input) {
        Err(error) => Err(CommandError::Parse(error)),
        Ok(statement) => match execute_statement(statement, table) {
            Ok(rows) => Ok(Outcome::Rows(rows)),
            Err(error) => Err(CommandError::Exec(error)),
        },
    }
}

/// The text that reports `error` for the line that caused it. A line that is no
/// statement is an unrecognized command where it begins with a dot, and else has
/// an unrecognized keyword at its start, also where it has no word at all.
pub open spec fn message_text(error: CommandErrorView, line: Seq<char>) -> Seq<char> {
    match error {
        CommandErrorView::Parse(ParseErrorView::InvalidId) => "Invalid ID format"@,
        CommandErrorView::Parse(ParseErrorView::InvalidFormat) => "Invalid input format"@,
        CommandErrorView::Parse(ParseErrorView::UnknownCommand(_)) => if is_meta(line) {
            "Unrecognized command '"@ + line + "'."@
        } else {
            "Unrecognized keyword at start of '"@ + line + "'."@
        },
        CommandErrorView::Exec(ExecError::TableFull) => "Table full."@,
    }
}

/// A text between single quotes, after `before` and with a full stop behind it.
fn quoted(before: &str, line: &str) -> (text: String)
    ensures
        text@ == before@ + line@ + "'."@,
{
    let mut text = String::from_str(before);
    text.append(line);
    text.append("'.");
    text
}

/// The text that reports `error`, where `line` is the input that caused it.
pub fn message(error: &CommandError, line: &str) -> (text: String)
    ensures
        text@ == message_text(error@, line@),
{
    match error {
        CommandError::Parse(ParseError::InvalidId) => String::from_str("Invalid ID format"),
        CommandError::Parse(ParseError::InvalidFormat) => String::from_str("Invalid input format"),
        CommandError::Parse(ParseError::UnknownCommand(_)) => {
            let chars = chars_of(line);
            if chars.len() > 0 && chars[0] == '.' {
                quoted("Unrecognized command '", line)
            } else {
                quoted("Unrecognized keyword at start of '", line)
            }
        },
        CommandError::Exec(ExecError::TableFull) => String::from_str("Table full."),
    }
}

} // verus!

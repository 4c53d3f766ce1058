//! Carrying out statements and whole command lines on a table.

use vstd::prelude::*;
use crate::row::{row_views, Row, RowView};
use crate::statement::{Statement, StatementView};
use crate::table::{Table, TableView, TABLE_MAX_ROWS};

verus! {

/// Why a statement was not carried out.
#[derive(Debug, PartialEq, Eq, Structural)]
pub enum ExecError {
    /// An `insert` met a table that holds [`TABLE_MAX_ROWS`] rows.
    TableFull,
}

/// What carrying out `statement` on `table` yields, and the table after it.
/// An insert that fails leaves the table as it was; a select lists the rows and
/// changes nothing; a truncate always succeeds.
pub open spec fn execute(statement: StatementView, table: TableView) -> (
    Result<Seq<RowView>, ExecError>,
    TableView,
) {
    match statement {
        StatementView::Insert(row) => if table.rows.len() >= TABLE_MAX_ROWS {
            (Err(ExecError::TableFull), table)
        } else {
            (Ok(Seq::empty()), TableView { name: table.name, rows: table.rows.push(row) })
        },
        StatementView::Select => (Ok(table.rows), table),
        StatementView::Truncate => (
            Ok(Seq::empty()),
            TableView { name: table.name, rows: Seq::empty() },
        ),
    }
}

/// What the result of a statement is in contracts.
pub open spec fn output_view(r: Result<Vec<Row>, ExecError>) -> Result<Seq<RowView>, ExecError> {
    match r {
        Ok(rows) => Ok(row_views(rows@)),
        Err(error) => Err(error),
    }
}

/// Carries out `statement` on `table` and returns the rows it lists: all rows
/// for a select, none for the others.
pub fn execute_statement(statement: Statement, table: &mut Table) -> (r: Result<
    Vec<Row>,
    ExecError,
>)
    requires
        old(table).wf(),
    ensures
        final(table).wf(),
        (output_view(r), final(table)@) == execute(statement@, old(table)@),
        r is Err ==> *final(table) == *old(table),
{
    match statement {
        Statement::Insert(row) => {
            proof {
                table.lemma_within_capacity();
            }
            match table.append(row) {
                Ok(()) => {
                    let none: Vec<Row> = Vec::new();
                    assert(row_views(none@) == Seq::<RowView>::empty());
                    Ok(none)
                },
                Err(_) => Err(ExecError::TableFull),
            }
        },
        Statement::Select => Ok(table.select()),
        Statement::Truncate => {
            table.truncate();
            let none: Vec<Row> = Vec::new();
            assert(row_views(none@) == Seq::<RowView>::empty());
            Ok(none)
        },
    }
}

/// The table after the rows of `rows` were inserted into `table`, one statement
/// each, in order.
pub open spec fn insert_all(table: TableView, rows: Seq<RowView>) -> TableView
    decreases rows.len(),
{
    if rows.len() == 0 {
        table
    } else {
        execute(StatementView::Insert(rows.last()), insert_all(table, rows.drop_last())).1
    }
}

/// As long as the ceiling is not passed, every insert succeeds, and the table
/// then holds what it held, followed by the inserted rows in the order of their
/// insertion. In particular an empty table takes exactly [`TABLE_MAX_ROWS`]
/// rows.
pub proof fn lemma_inserts_below_ceiling(table: TableView, rows: Seq<RowView>)
    requires
        table.rows.len() + rows.len() <= TABLE_MAX_ROWS,
    ensures
        insert_all(table, rows) == (TableView { name: table.name, rows: table.rows + rows }),
        forall|k: int|
            0 <= k < rows.len() ==> (#[trigger] execute(
                StatementView::Insert(rows[k]),
                insert_all(table, rows.take(k)),
            )).0 is Ok,
    decreases rows.len(),
{
    if rows.len() == 0 {
        assert(table.rows + rows == table.rows);
    } else {
        let earlier = rows.drop_last();
        lemma_inserts_below_ceiling(table, earlier);
        assert((table.rows + earlier).push(rows.last()) == table.rows + rows);
        assert forall|k: int| 0 <= k < rows.len() implies (#[trigger] execute(
            StatementView::Insert(rows[k]),
            insert_all(table, rows.take(k)),
        )).0 is Ok by {
            if k < earlier.len() {
                assert(rows.take(k) == earlier.take(k));
                assert(rows[k] == earlier[k]);
            } else {
                assert(rows.take(k) == earlier);
            }
        }
    }
}

/// An insert into a table that holds [`TABLE_MAX_ROWS`] rows fails, and the
/// table, the number of its rows included, stays as it was.
pub proof fn lemma_insert_at_ceiling(table: TableView, row: RowView)
    requires
        table.rows.len() == TABLE_MAX_ROWS,
    ensures
        execute(StatementView::Insert(row), table) == (
            Err::<Seq<RowView>, ExecError>(ExecError::TableFull),
            table,
        ),
{
}

/// After any number of inserts that the ceiling allows into an empty table, a
/// select lists exactly the inserted rows, in the order of their insertion, and
/// leaves the table as it is.
pub proof fn lemma_select_after_inserts(name: Seq<char>, rows: Seq<RowView>)
    requires
        rows.len() <= TABLE_MAX_ROWS,
    ensures
        ({
            let filled = insert_all(TableView { name, rows: Seq::empty() }, rows);
            execute(StatementView::Select, filled) == (
                Ok::<Seq<RowView>, ExecError>(rows),
                filled,
            )
        }),
{
    lemma_inserts_below_ceiling(TableView { name, rows: Seq::empty() }, rows);
    assert(Seq::<RowView>::empty() + rows == rows);
}

/// After a truncate, whatever the table held, a select lists nothing and the
/// table has no rows.
pub proof fn lemma_select_after_truncate(table: TableView)
    ensures
        ({
            let (cleared, emptied) = execute(StatementView::Truncate, table);
            &&& cleared is Ok
            &&& emptied.rows.len() == 0
            &&& execute(StatementView::Select, emptied).0 == Ok::<Seq<RowView>, ExecError>(
                Seq::empty(),
            )
        }),
{
}

} // verus!
